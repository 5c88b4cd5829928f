//! Element attributes: an `indexmap::IndexMap` from name to value, in
//! document order. The map's operations are trusted at the contracts below,
//! stated over the ordered (name, value) pairs it holds.

use indexmap::IndexMap;
use vstd::prelude::*;

verus! {

/// Ordered element attributes.
pub type AttrMap = IndexMap<String, String>;

#[verifier::external_type_specification]
#[verifier::external_body]
#[verifier::reject_recursive_types(K)]
#[verifier::reject_recursive_types(V)]
#[verifier::reject_recursive_types(S)]
pub struct ExIndexMap<K, V, S>(IndexMap<K, V, S>);

/// The (name, value) pairs an attribute map holds, in its order. An
/// `IndexMap` holds each key once.
pub uninterp spec fn attr_entries(m: IndexMap<String, String>) -> Seq<(Seq<char>, Seq<char>)>;

/// Position of the pair named `key`.
pub open spec fn attr_index(e: Seq<(Seq<char>, Seq<char>)>, key: Seq<char>) -> Option<int>
    decreases e.len(),
{
    if e.len() == 0 {
        None
    } else if e[0].0 == key {
        Some(0)
    } else {
        match attr_index(e.drop_first(), key) {
            Some(i) => Some(i + 1),
            None => None,
        }
    }
}

/// The value of the pair named `key`.
pub open spec fn attr_lookup(e: Seq<(Seq<char>, Seq<char>)>, key: Seq<char>) -> Option<Seq<char>> {
    match attr_index(e, key) {
        Some(i) => Some(e[i].1),
        None => None,
    }
}

pub proof fn lemma_attr_index_bounds(e: Seq<(Seq<char>, Seq<char>)>, key: Seq<char>)
    ensures
        match attr_index(e, key) {
            Some(i) => 0 <= i < e.len() && e[i].0 == key && forall|j: int| 0 <= j < i ==> e[j].0 != key,
            None => forall|j: int| 0 <= j < e.len() ==> e[j].0 != key,
        },
    decreases e.len(),
{
    if e.len() > 0 {
        lemma_attr_index_bounds(e.drop_first(), key);
        if e[0].0 != key {
            match attr_index(e.drop_first(), key) {
                Some(i) => {
                    assert forall|j: int| 0 <= j < i + 1 implies e[j].0 != key by {
                        if j > 0 {
                            assert(e.drop_first()[j - 1] == e[j]);
                        }
                    }
                },
                None => {
                    assert forall|j: int| 0 <= j < e.len() implies e[j].0 != key by {
                        if j > 0 {
                            assert(e.drop_first()[j - 1] == e[j]);
                        }
                    }
                },
            }
        }
    }
}

/// `IndexMap::new`: an empty map.
#[verifier::external_body]
pub fn attrs_new() -> (m: AttrMap)
    ensures
        attr_entries(m) == Seq::<(Seq<char>, Seq<char>)>::empty(),
{
    IndexMap::new()
}

/// The attribute list without `key`.
pub open spec fn remove_attr_spec(a: Seq<(Seq<char>, Seq<char>)>, key: Seq<char>) -> Seq<(Seq<char>, Seq<char>)> {
    match attr_index(a, key) {
        Some(i) => a.remove(i),
        None => a,
    }
}

/// `IndexMap::insert` on an attribute list.
pub open spec fn insert_attr_spec(a: Seq<(Seq<char>, Seq<char>)>, key: Seq<char>, value: Seq<char>) -> Seq<(Seq<char>, Seq<char>)> {
    match attr_index(a, key) {
        Some(i) => a.update(i, (key, value)),
        None => a.push((key, value)),
    }
}

/// No name occurs twice.
pub open spec fn keys_unique(e: Seq<(Seq<char>, Seq<char>)>) -> bool {
    forall|i: int, j: int| 0 <= i < j < e.len() ==> #[trigger] e[i].0 != #[trigger] e[j].0
}

/// In a list without repeated names, a pair's name finds that pair.
pub proof fn lemma_unique_index(e: Seq<(Seq<char>, Seq<char>)>, i: int)
    requires
        keys_unique(e),
        0 <= i < e.len(),
    ensures
        attr_index(e, e[i].0) == Some(i),
{
    lemma_attr_index_bounds(e, e[i].0);
    match attr_index(e, e[i].0) {
        Some(k) => {
            if k < i {
                assert(e[k].0 != e[i].0);
            }
        },
        None => {},
    }
}

/// `IndexMap::len`: the number of pairs.
#[verifier::external_body]
pub fn attrs_len(m: &AttrMap) -> (n: usize)
    ensures
        n == attr_entries(*m).len(),
{
    m.len()
}

/// `IndexMap::keys`: the names in order, each once (an `IndexMap` holds
/// each name once).
#[verifier::external_body]
pub fn attrs_keys(m: &AttrMap) -> (r: Vec<String>)
    ensures
        r@.len() == attr_entries(*m).len(),
        forall|i: int| 0 <= i < r@.len() ==> (#[trigger] r@[i])@ == attr_entries(*m)[i].0,
        forall|i: int, j: int| 0 <= i < j < r@.len() ==> (#[trigger] r@[i])@ != (#[trigger] r@[j])@,
{
    m.keys().cloned().collect()
}

/// The names of an attribute map, each once.
pub fn attr_names(m: &AttrMap) -> (r: Vec<String>)
    ensures
        keys_unique(attr_entries(*m)),
        r@.len() == attr_entries(*m).len(),
        forall|i: int| 0 <= i < r@.len() ==> (#[trigger] r@[i])@ == attr_entries(*m)[i].0,
{
    let r = attrs_keys(m);
    proof {
        let e = attr_entries(*m);
        assert forall|i: int, j: int| 0 <= i < j < e.len() implies #[trigger] e[i].0 != #[trigger] e[j].0 by {
            assert(r@[i]@ == e[i].0 && r@[j]@ == e[j].0);
        }
    }
    r
}

/// `IndexMap::get_index`: the pair at position `i`, if there is one.
#[verifier::external_body]
pub fn attrs_get_index(m: &AttrMap, i: usize) -> (r: Option<(&String, &String)>)
    ensures
        match r {
            Some(p) => i < attr_entries(*m).len() && (p.0@, p.1@) == attr_entries(*m)[i as int],
            None => i >= attr_entries(*m).len(),
        },
{
    m.get_index(i)
}

/// `IndexMap::get`: the value of the pair named `name`.
#[verifier::external_body]
pub fn attrs_get<'a>(m: &'a AttrMap, name: &str) -> (r: Option<&'a String>)
    ensures
        match r {
            Some(v) => attr_lookup(attr_entries(*m), name@) == Some(v@),
            None => attr_lookup(attr_entries(*m), name@) is None,
        },
{
    m.get(name)
}

/// `IndexMap::insert`: a present name keeps its position and takes the new
/// value (the old one is returned); a new name is appended.
#[verifier::external_body]
pub fn attrs_insert(m: &mut AttrMap, name: String, value: String) -> (r: Option<String>)
    ensures
        match attr_index(attr_entries(*old(m)), name@) {
            Some(i) => {
                &&& attr_entries(*final(m)) == attr_entries(*old(m)).update(i, (name@, value@))
                &&& r matches Some(o) && o@ == attr_entries(*old(m))[i].1
            },
            None => attr_entries(*final(m)) == attr_entries(*old(m)).push((name@, value@)) && r is None,
        },
{
    m.insert(name, value)
}

/// `IndexMap::shift_remove`: removes the pair named `name`, keeping the
/// order of the others, and returns its value.
#[verifier::external_body]
pub fn attrs_shift_remove(m: &mut AttrMap, name: &str) -> (r: Option<String>)
    ensures
        match attr_index(attr_entries(*old(m)), name@) {
            Some(i) => {
                &&& attr_entries(*final(m)) == attr_entries(*old(m)).remove(i)
                &&& r matches Some(o) && o@ == attr_entries(*old(m))[i].1
            },
            None => attr_entries(*final(m)) == attr_entries(*old(m)) && r is None,
        },
{
    m.shift_remove(name)
}

/// `IndexMap::clone`: the same pairs in the same order.
#[verifier::external_body]
pub fn attrs_clone(m: &AttrMap) -> (r: AttrMap)
    ensures
        attr_entries(r) == attr_entries(*m),
{
    m.clone()
}

} // verus!
