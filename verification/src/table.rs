//! Maps keyed by the number of a tile kind, hashed with FNV.
use fnv::FnvHashMap;
use vstd::prelude::*;

verus! {

/// The hasher of the `fnv` crate. Nothing is said of what is inside it; it
/// only stands in the type of the tables.
#[verifier::external_type_specification]
#[verifier::external_body]
pub struct ExFnvHasher(fnv::FnvHasher);

/// The builder of default hashers of the standard library. Nothing is
/// said of what is inside it; it only stands in the type of the tables.
#[verifier::external_type_specification]
#[verifier::external_body]
#[verifier::reject_recursive_types(H)]
pub struct ExBuildHasherDefault<H>(std::hash::BuildHasherDefault<H>);

/// `HashMap::insert` of the standard library, on a map whose keys are
/// hashed by `fnv::FnvHasher`. That hasher starts from a fixed basis and
/// folds in the bytes of the key, so equal keys always hash alike, and the
/// map does what its documentation says: afterwards the key maps to the new
/// value and every other key is as before; the value that the key had
/// before, if any, is handed back. Not proved.
#[verifier::external_body]
pub(crate) fn table_insert<V>(m: &mut FnvHashMap<u32, V>, k: u32, v: V) -> (r: Option<V>)
    ensures
        final(m)@ == old(m)@.insert(k, v),
        r == (if old(m)@.contains_key(k) {
            Some(old(m)@[k])
        } else {
            None
        }),
{
    m.insert(k, v)
}

/// `HashMap::get` of the standard library, on a map whose keys are hashed
/// by `fnv::FnvHasher`: a reference to the value stored under the key, if
/// the key is present, and nothing otherwise. Not proved.
#[verifier::external_body]
pub(crate) fn table_get<'a, V>(m: &'a FnvHashMap<u32, V>, k: u32) -> (r: Option<&'a V>)
    ensures
        r == (if m@.contains_key(k) {
            Some(&m@[k])
        } else {
            None
        }),
{
    m.get(&k)
}

/// `HashMap::get_mut` of the standard library, on a map whose keys are
/// hashed by `fnv::FnvHasher`: a mutable reference to the value stored
/// under the key, if the key is present; what is written through it
/// becomes the key's value, and nothing else changes. With the key absent
/// nothing is handed out and the map stays as it is. Not proved.
#[verifier::external_body]
pub(crate) fn table_get_mut<V>(m: &mut FnvHashMap<u32, V>, k: u32) -> (r: Option<&mut V>)
    ensures
        !old(m)@.contains_key(k) ==> r.is_none() && final(m)@ == old(m)@,
        old(m)@.contains_key(k) ==> r.is_some() && *r.unwrap() == old(m)@[k] && final(m)@ == old(
            m,
        )@.insert(k, *final(r.unwrap())),
{
    m.get_mut(&k)
}

/// An empty table, made by `Default::default`.
pub(crate) fn table_new<V>() -> (m: FnvHashMap<u32, V>)
    ensures
        m@ == Map::<u32, V>::empty(),
{
    FnvHashMap::default()
}

} // verus!
