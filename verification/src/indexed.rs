//! The hash map and the hash set of the `indexmap` crate, as far as this
//! crate uses them: a map from node identifiers to positions, and a set of
//! field elements in their canonical bytes.
use indexmap::{IndexMap, IndexSet};
use vstd::prelude::*;

verus! {

/// `indexmap::IndexMap`.
#[verifier::external_type_specification]
#[verifier::external_body]
#[verifier::reject_recursive_types(K)]
#[verifier::reject_recursive_types(V)]
#[verifier::reject_recursive_types(S)]
pub struct ExIndexMap<K, V, S>(indexmap::IndexMap<K, V, S>);

/// `indexmap::IndexSet`.
#[verifier::external_type_specification]
#[verifier::external_body]
#[verifier::reject_recursive_types(T)]
#[verifier::reject_recursive_types(S)]
pub struct ExIndexSet<T, S>(indexmap::IndexSet<T, S>);

/// The keys of a map with the values that are stored under them.
pub uninterp spec fn positions(m: IndexMap<u64, usize>) -> Map<u64, usize>;

/// The values in a set.
pub uninterp spec fn members(s: IndexSet<Vec<u8>>) -> Set<Seq<u8>>;

/// `IndexMap::new`. Claims that a new map has no keys.
#[verifier::external_body]
pub(crate) fn new_positions() -> (r: IndexMap<u64, usize>)
    ensures
        forall|k: u64| !(#[trigger] positions(r).contains_key(k)),
{
    IndexMap::new()
}

/// `IndexMap::get`. Claims that it gives the value stored under the key, and
/// nothing where the map lacks the key.
#[verifier::external_body]
pub(crate) fn get_position(m: &IndexMap<u64, usize>, key: u64) -> (r: Option<usize>)
    ensures
        r == if positions(*m).contains_key(key) {
            Some(positions(*m)[key])
        } else {
            None
        },
{
    m.get(&key).copied()
}

/// `IndexMap::insert`. Claims that the key then has the given value, in
/// place of an earlier one, and that no other key changes.
#[verifier::external_body]
pub(crate) fn put_position(m: &mut IndexMap<u64, usize>, key: u64, value: usize)
    ensures
        positions(*final(m)) == positions(*old(m)).insert(key, value),
{
    m.insert(key, value);
}

/// `IndexSet::new`. Claims that a new set has no members.
#[verifier::external_body]
pub(crate) fn new_members() -> (r: IndexSet<Vec<u8>>)
    ensures
        members(r) == Set::<Seq<u8>>::empty(),
{
    IndexSet::new()
}

/// `IndexSet::insert`. Claims that the value is a member then, and that no
/// other membership changes.
#[verifier::external_body]
pub(crate) fn put_member(s: &mut IndexSet<Vec<u8>>, value: Vec<u8>)
    ensures
        members(*final(s)) == members(*old(s)).insert(value@),
{
    s.insert(value);
}

/// `IndexSet::contains`. Claims that it tells the members.
#[verifier::external_body]
pub(crate) fn has_member(s: &IndexSet<Vec<u8>>, value: &Vec<u8>) -> (r: bool)
    ensures
        r == members(*s).contains(value@),
{
    s.contains(value)
}

} // verus!
