//! The FNV-hashed maps and sets that hold the directory's tables. They are
//! std's `HashMap` and `HashSet` with `fnv`'s hasher, which hashes equal
//! keys equally, so each behaves as a map or a set of its keys.

use fnv::{FnvHashMap, FnvHashSet};
use vstd::prelude::*;

verus! {

/// `fnv`'s hasher, carried as an opaque type.
#[verifier::external_type_specification]
#[verifier::external_body]
pub struct ExFnvHasher(fnv::FnvHasher);

/// std's builder of default hashers, the one `fnv::FnvBuildHasher` names.
#[verifier::external_type_specification]
#[verifier::external_body]
#[verifier::reject_recursive_types(H)]
pub struct ExBuildHasherDefault<H>(std::hash::BuildHasherDefault<H>);

/// What a name index holds: for the text of each name, the identity that
/// owns it. A `String` key is compared by its characters.
pub uninterp spec fn name_entries(m: FnvHashMap<String, u64>) -> Map<Seq<char>, u64>;

/// Relies on `<FnvHashMap as Default>::default`: a new map is empty.
#[verifier::external_body]
pub(crate) fn names_new() -> (r: FnvHashMap<String, u64>)
    ensures
        name_entries(r).is_empty(),
{
    FnvHashMap::default()
}

/// Relies on `HashMap::get`, on `fnv::FnvHashMap<String, u64>`: the
/// identity stored under the text `k`.
#[verifier::external_body]
pub(crate) fn names_get(m: &FnvHashMap<String, u64>, k: &str) -> (r: Option<u64>)
    ensures
        match r {
            Some(v) => name_entries(*m).contains_key(k@) && name_entries(*m)[k@] == v,
            None => !name_entries(*m).contains_key(k@),
        },
{
    m.get(k).copied()
}

/// Relies on `HashMap::insert`, on `fnv::FnvHashMap<String, u64>`.
#[verifier::external_body]
pub(crate) fn names_insert(m: &mut FnvHashMap<String, u64>, k: String, v: u64)
    ensures
        name_entries(*final(m)) == name_entries(*old(m)).insert(k@, v),
{
    m.insert(k, v);
}

/// Relies on `HashMap::remove`, on `fnv::FnvHashMap<String, u64>`.
#[verifier::external_body]
pub(crate) fn names_remove(m: &mut FnvHashMap<String, u64>, k: &str)
    ensures
        name_entries(*final(m)) == name_entries(*old(m)).remove(k@),
{
    m.remove(k);
}

/// Relies on `HashMap::keys`, on `fnv::FnvHashMap`: each key once.
#[verifier::external_body]
pub(crate) fn map_keys<V>(m: &FnvHashMap<u64, V>) -> (r: Vec<u64>)
    ensures
        r@.no_duplicates(),
        forall|i: int| 0 <= i < r@.len() ==> m@.contains_key(#[trigger] r@[i]),
        forall|k: u64| #[trigger] m@.contains_key(k) ==> r@.contains(k),
{
    m.keys().copied().collect()
}

/// Relies on `HashMap::get`, on `fnv::FnvHashMap`: the value stored under `k`.
#[verifier::external_body]
pub(crate) fn map_get<'a, V>(m: &'a FnvHashMap<u64, V>, k: u64) -> (r: Option<&'a V>)
    ensures
        match r {
            Some(v) => m@.contains_key(k) && m@[k] == *v,
            None => !m@.contains_key(k),
        },
{
    m.get(&k)
}

/// Relies on `HashMap::insert`, on `fnv::FnvHashMap`: stores `v` under `k`
/// and hands back the value it replaces.
#[verifier::external_body]
pub(crate) fn map_insert<V>(m: &mut FnvHashMap<u64, V>, k: u64, v: V) -> (r: Option<V>)
    ensures
        final(m)@ == old(m)@.insert(k, v),
        match r {
            Some(x) => old(m)@.contains_key(k) && x == old(m)@[k],
            None => !old(m)@.contains_key(k),
        },
{
    m.insert(k, v)
}

/// Relies on `HashMap::remove`, on `fnv::FnvHashMap`: takes out the value
/// stored under `k`.
#[verifier::external_body]
pub(crate) fn map_remove<V>(m: &mut FnvHashMap<u64, V>, k: u64) -> (r: Option<V>)
    ensures
        final(m)@ == old(m)@.remove(k),
        match r {
            Some(x) => old(m)@.contains_key(k) && x == old(m)@[k],
            None => !old(m)@.contains_key(k),
        },
{
    m.remove(&k)
}

/// Relies on `HashSet::iter`, on `fnv::FnvHashSet`: each element once.
#[verifier::external_body]
pub(crate) fn set_elements(s: &FnvHashSet<u64>) -> (r: Vec<u64>)
    ensures
        r@.no_duplicates(),
        forall|i: int| 0 <= i < r@.len() ==> s@.contains(#[trigger] r@[i]),
        forall|x: u64| #[trigger] s@.contains(x) ==> r@.contains(x),
{
    s.iter().copied().collect()
}

/// Relies on `HashSet::contains`, on `fnv::FnvHashSet`.
#[verifier::external_body]
pub(crate) fn set_contains(s: &FnvHashSet<u64>, x: u64) -> (r: bool)
    ensures
        r == s@.contains(x),
{
    s.contains(&x)
}

/// Relies on `HashSet::insert`, on `fnv::FnvHashSet`.
#[verifier::external_body]
pub(crate) fn set_insert(s: &mut FnvHashSet<u64>, x: u64) -> (r: bool)
    ensures
        final(s)@ == old(s)@.insert(x),
        r == !old(s)@.contains(x),
{
    s.insert(x)
}

/// Relies on `HashSet::remove`, on `fnv::FnvHashSet`.
#[verifier::external_body]
pub(crate) fn set_remove(s: &mut FnvHashSet<u64>, x: u64) -> (r: bool)
    ensures
        final(s)@ == old(s)@.remove(x),
        r == old(s)@.contains(x),
{
    s.remove(&x)
}

} // verus!
