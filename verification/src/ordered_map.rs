//! String-keyed maps that keep their keys in insertion order.
//!
//! Every map of the schema is an `indexmap::IndexMap` keyed by `String`.  The
//! contents of such a map are modelled as a sequence of `(key, value)` pairs in
//! iteration order; the functions below describe what `insert` and `get` do to
//! that sequence, as the `indexmap` documentation states it.
use vstd::prelude::*;
use indexmap::IndexMap;

use crate::schema::{Include, Task, VarValue};

verus! {

#[verifier::external_type_specification]
#[verifier::external_body]
#[verifier::reject_recursive_types(K)]
#[verifier::reject_recursive_types(V)]
#[verifier::reject_recursive_types(S)]
pub struct ExIndexMap<K, V, S>(IndexMap<K, V, S>);

/// Position of the first entry whose key is `k`, or -1 when there is none.
pub open spec fn key_index<V>(s: Seq<(Seq<char>, V)>, k: Seq<char>) -> int
    decreases s.len(),
{
    if s.len() == 0 {
        -1
    } else {
        let i = key_index(s.drop_last(), k);
        if i >= 0 {
            i
        } else if s.last().0 == k {
            s.len() - 1
        } else {
            -1
        }
    }
}

/// The value stored under `k`, if any.
pub open spec fn entry_lookup<V>(s: Seq<(Seq<char>, V)>, k: Seq<char>) -> Option<V> {
    let i = key_index(s, k);
    if i >= 0 {
        Some(s[i].1)
    } else {
        None
    }
}

/// Insertion into an ordered map: an existing key keeps its place and gets the
/// new value; a new key goes last.
pub open spec fn entry_insert<V>(s: Seq<(Seq<char>, V)>, k: Seq<char>, v: V) -> Seq<(Seq<char>, V)> {
    let i = key_index(s, k);
    if i >= 0 {
        s.update(i, (k, v))
    } else {
        s.push((k, v))
    }
}

/// Applies `f` to every value and keeps the keys.
pub open spec fn map_entry_values<V, W>(s: Seq<(Seq<char>, V)>, f: spec_fn(V) -> W) -> Seq<(Seq<char>, W)> {
    s.map_values(|e: (Seq<char>, V)| (e.0, f(e.1)))
}

/// The keys of a map in order.
pub open spec fn entry_keys<V>(s: Seq<(Seq<char>, V)>) -> Seq<Seq<char>> {
    s.map_values(|e: (Seq<char>, V)| e.0)
}

pub proof fn lemma_key_index<V>(s: Seq<(Seq<char>, V)>, k: Seq<char>)
    ensures
        -1 <= key_index(s, k) < s.len(),
        key_index(s, k) >= 0 ==> s[key_index(s, k)].0 == k,
        key_index(s, k) >= 0 ==> forall|j: int| 0 <= j < key_index(s, k) ==> s[j].0 != k,
        key_index(s, k) < 0 ==> forall|j: int| 0 <= j < s.len() ==> s[j].0 != k,
    decreases s.len(),
{
    if s.len() > 0 {
        let t = s.drop_last();
        lemma_key_index(t, k);
        assert forall|j: int| 0 <= j < t.len() implies t[j] == s[j] by {}
    }
}

/// `key_index` only looks at keys.
pub proof fn lemma_key_index_map_values<V, W>(s: Seq<(Seq<char>, V)>, f: spec_fn(V) -> W, k: Seq<char>)
    ensures
        key_index(map_entry_values(s, f), k) == key_index(s, k),
    decreases s.len(),
{
    if s.len() > 0 {
        lemma_key_index_map_values(s.drop_last(), f, k);
        assert(map_entry_values(s, f).drop_last() =~= map_entry_values(s.drop_last(), f));
    }
}

/// Mapping the values commutes with insertion.
pub proof fn lemma_insert_map_values<V, W>(s: Seq<(Seq<char>, V)>, f: spec_fn(V) -> W, k: Seq<char>, v: V)
    ensures
        map_entry_values(entry_insert(s, k, v), f) == entry_insert(map_entry_values(s, f), k, f(v)),
{
    lemma_key_index_map_values(s, f, k);
    lemma_key_index(s, k);
    assert(map_entry_values(entry_insert(s, k, v), f) =~= entry_insert(map_entry_values(s, f), k, f(v)));
}

/// Mapping the values commutes with lookup.
pub proof fn lemma_lookup_map_values<V, W>(s: Seq<(Seq<char>, V)>, f: spec_fn(V) -> W, k: Seq<char>)
    ensures
        entry_lookup(map_entry_values(s, f), k) == (match entry_lookup(s, k) {
            Some(v) => Some(f(v)),
            None => None,
        }),
{
    lemma_key_index_map_values(s, f, k);
    lemma_key_index(s, k);
}

/// Insertion never changes the keys already present, nor their order.
pub proof fn lemma_insert_keys<V>(s: Seq<(Seq<char>, V)>, k: Seq<char>, v: V)
    ensures
        entry_insert(s, k, v).len() == s.len() || entry_insert(s, k, v).len() == s.len() + 1,
        forall|j: int| 0 <= j < s.len() ==> #[trigger] entry_insert(s, k, v)[j].0 == s[j].0,
        key_index(s, k) < 0 ==> entry_insert(s, k, v) == s.push((k, v)),
        entry_lookup(entry_insert(s, k, v), k) == Some(v),
{
    lemma_key_index(s, k);
    let t = entry_insert(s, k, v);
    lemma_key_index(t, k);
    if key_index(s, k) >= 0 {
        let i = key_index(s, k);
        assert forall|j: int| 0 <= j < i implies t[j].0 != k by {}
        lemma_key_index_first(t, k, i);
    } else {
        lemma_key_index_first(t, k, s.len() as int);
    }
}

/// `key_index` is the first position that holds the key.
pub proof fn lemma_key_index_first<V>(s: Seq<(Seq<char>, V)>, k: Seq<char>, i: int)
    requires
        0 <= i < s.len(),
        s[i].0 == k,
        forall|j: int| 0 <= j < i ==> s[j].0 != k,
    ensures
        key_index(s, k) == i,
    decreases s.len(),
{
    if i < s.len() - 1 {
        lemma_key_index_first(s.drop_last(), k, i);
    } else {
        lemma_key_index(s.drop_last(), k);
    }
}

/// Inserting under one key leaves the lookup of every other key alone.
pub proof fn lemma_lookup_insert_other<V>(s: Seq<(Seq<char>, V)>, k: Seq<char>, v: V, other: Seq<char>)
    requires
        k != other,
    ensures
        entry_lookup(entry_insert(s, k, v), other) == entry_lookup(s, other),
{
    let t = entry_insert(s, k, v);
    lemma_key_index(s, other);
    lemma_key_index(s, k);
    lemma_key_index(t, other);
    lemma_insert_keys(s, k, v);
    let i = key_index(s, other);
    if i >= 0 {
        assert(t[i].0 == other);
        assert forall|j: int| 0 <= j < i implies t[j].0 != other by {
            assert(t[j].0 == s[j].0);
        }
        lemma_key_index_first(t, other, i);
        assert(t[i] == s[i]) by {
            let ki = key_index(s, k);
            if ki >= 0 && ki == i {
                assert(s[i].0 == k);
            }
        }
    } else {
        assert forall|j: int| 0 <= j < t.len() implies t[j].0 != other by {
            if j < s.len() {
                assert(t[j].0 == s[j].0);
            } else {
                assert(t[j].0 == k);
            }
        }
        if key_index(t, other) >= 0 {
            assert(t[key_index(t, other)].0 == other);
        }
    }
}

// ---------------------------------------------------------------------------
// The maps of the schema, one name for the contents of each instantiation.
// ---------------------------------------------------------------------------

/// The entries of a map from names to tasks, in iteration order.
pub uninterp spec fn task_entries(m: IndexMap<String, Task>) -> Seq<(Seq<char>, Task)>;

/// The entries of a map from names to variable definitions, in iteration order.
pub uninterp spec fn var_entries(m: IndexMap<String, VarValue>) -> Seq<(Seq<char>, VarValue)>;

/// The entries of a map from names to strings, in iteration order.
pub uninterp spec fn string_entries(m: IndexMap<String, String>) -> Seq<(Seq<char>, String)>;

/// The entries of a map from namespaces to includes, in iteration order.
pub uninterp spec fn include_entries(m: IndexMap<String, Include>) -> Seq<(Seq<char>, Include)>;

/// `IndexMap::new`: an empty map.
#[verifier::external_body]
pub(crate) fn task_map_new() -> (m: IndexMap<String, Task>)
    ensures
        task_entries(m) == Seq::<(Seq<char>, Task)>::empty(),
{
    IndexMap::new()
}

/// `IndexMap::insert`: an existing key keeps its position and takes the new
/// value, a new key is appended last.
#[verifier::external_body]
pub(crate) fn task_map_insert(m: &mut IndexMap<String, Task>, k: String, v: Task)
    ensures
        task_entries(*final(m)) == entry_insert(task_entries(*old(m)), k@, v),
{
    m.insert(k, v);
}

/// `IndexMap::len`: the number of entries.
#[verifier::external_body]
pub(crate) fn task_map_len(m: &IndexMap<String, Task>) -> (n: usize)
    ensures
        n == task_entries(*m).len(),
{
    m.len()
}

/// `IndexMap::get_index`: the entry at position `i` in iteration order.
#[verifier::external_body]
pub(crate) fn task_map_get_index(m: &IndexMap<String, Task>, i: usize) -> (r: Option<(&String, &Task)>)
    ensures
        i < task_entries(*m).len() <==> r is Some,
        r matches Some(p) ==> p.0@ == task_entries(*m)[i as int].0 && *p.1 == task_entries(*m)[i as int].1,
{
    m.get_index(i)
}

/// `IndexMap::get`: the value stored under the key `k`.
#[verifier::external_body]
pub(crate) fn task_map_get<'a>(m: &'a IndexMap<String, Task>, k: &str) -> (r: Option<&'a Task>)
    ensures
        r is Some <==> key_index(task_entries(*m), k@) >= 0,
        r matches Some(t) ==> *t == task_entries(*m)[key_index(task_entries(*m), k@)].1,
{
    m.get(k)
}

/// `IndexMap::into_iter`, collected: the entries in iteration order.
#[verifier::external_body]
pub(crate) fn task_map_into_vec(m: IndexMap<String, Task>) -> (r: Vec<(String, Task)>)
    ensures
        r@.map_values(|p: (String, Task)| (p.0@, p.1)) == task_entries(m),
{
    m.into_iter().collect()
}

/// `IndexMap::new`: an empty map.
#[verifier::external_body]
pub(crate) fn var_map_new() -> (m: IndexMap<String, VarValue>)
    ensures
        var_entries(m) == Seq::<(Seq<char>, VarValue)>::empty(),
{
    IndexMap::new()
}

/// `IndexMap::insert`: an existing key keeps its position and takes the new
/// value, a new key is appended last.
#[verifier::external_body]
pub(crate) fn var_map_insert(m: &mut IndexMap<String, VarValue>, k: String, v: VarValue)
    ensures
        var_entries(*final(m)) == entry_insert(var_entries(*old(m)), k@, v),
{
    m.insert(k, v);
}

/// `IndexMap::len`: the number of entries.
#[verifier::external_body]
pub(crate) fn var_map_len(m: &IndexMap<String, VarValue>) -> (n: usize)
    ensures
        n == var_entries(*m).len(),
{
    m.len()
}

/// `IndexMap::get_index`: the entry at position `i` in iteration order.
#[verifier::external_body]
pub(crate) fn var_map_get_index(m: &IndexMap<String, VarValue>, i: usize) -> (r: Option<(&String, &VarValue)>)
    ensures
        i < var_entries(*m).len() <==> r is Some,
        r matches Some(p) ==> p.0@ == var_entries(*m)[i as int].0 && *p.1 == var_entries(*m)[i as int].1,
{
    m.get_index(i)
}

/// `IndexMap::new`: an empty map.
#[verifier::external_body]
pub(crate) fn string_map_new() -> (m: IndexMap<String, String>)
    ensures
        string_entries(m) == Seq::<(Seq<char>, String)>::empty(),
{
    IndexMap::new()
}

/// `IndexMap::insert`: an existing key keeps its position and takes the new
/// value, a new key is appended last.
#[verifier::external_body]
pub(crate) fn string_map_insert(m: &mut IndexMap<String, String>, k: String, v: String)
    ensures
        string_entries(*final(m)) == entry_insert(string_entries(*old(m)), k@, v),
{
    m.insert(k, v);
}

/// `IndexMap::len`: the number of entries.
#[verifier::external_body]
pub(crate) fn string_map_len(m: &IndexMap<String, String>) -> (n: usize)
    ensures
        n == string_entries(*m).len(),
{
    m.len()
}

/// `IndexMap::get_index`: the entry at position `i` in iteration order.
#[verifier::external_body]
pub(crate) fn string_map_get_index(m: &IndexMap<String, String>, i: usize) -> (r: Option<(&String, &String)>)
    ensures
        i < string_entries(*m).len() <==> r is Some,
        r matches Some(p) ==> p.0@ == string_entries(*m)[i as int].0 && *p.1 == string_entries(*m)[i as int].1,
{
    m.get_index(i)
}

/// `IndexMap::new`: an empty map.
#[verifier::external_body]
pub(crate) fn include_map_new() -> (m: IndexMap<String, Include>)
    ensures
        include_entries(m) == Seq::<(Seq<char>, Include)>::empty(),
{
    IndexMap::new()
}

/// `IndexMap::insert`: an existing key keeps its position and takes the new
/// value, a new key is appended last.
#[verifier::external_body]
pub(crate) fn include_map_insert(m: &mut IndexMap<String, Include>, k: String, v: Include)
    ensures
        include_entries(*final(m)) == entry_insert(include_entries(*old(m)), k@, v),
{
    m.insert(k, v);
}

/// `IndexMap::len`: the number of entries.
#[verifier::external_body]
pub(crate) fn include_map_len(m: &IndexMap<String, Include>) -> (n: usize)
    ensures
        n == include_entries(*m).len(),
{
    m.len()
}

/// `IndexMap::get_index`: the entry at position `i` in iteration order.
#[verifier::external_body]
pub(crate) fn include_map_get_index(m: &IndexMap<String, Include>, i: usize) -> (r: Option<(&String, &Include)>)
    ensures
        i < include_entries(*m).len() <==> r is Some,
        r matches Some(p) ==> p.0@ == include_entries(*m)[i as int].0 && *p.1 == include_entries(*m)[i as int].1,
{
    m.get_index(i)
}

} // verus!
