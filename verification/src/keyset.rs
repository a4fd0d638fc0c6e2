//! A hash set of addresses, kept behind a contract over the set of byte
//! sequences that it holds.

use vstd::prelude::*;
use ahash::{AHashSet, RandomState};
use crate::address::Address;

verus! {

/// `RandomState` of ahash, the hasher state of its sets. Nothing is known of
/// a value of it.
#[verifier::external_type_specification]
#[verifier::external_body]
pub struct ExRandomState(RandomState);

/// `AHashSet` of ahash. A value of it is known only by what the functions
/// below say of the keys that it holds.
#[verifier::external_type_specification]
#[verifier::external_body]
#[verifier::reject_recursive_types(T)]
#[verifier::reject_recursive_types(S)]
pub struct ExAHashSet<T, S>(AHashSet<T, S>);

/// The byte sequences that a set of addresses holds: the keys that were
/// inserted into it.
pub uninterp spec fn held_keys(set: AHashSet<[u8; 32]>) -> Set<Seq<u8>>;

/// Calls `AHashSet::new` of ahash: the new set holds nothing.
#[verifier::external_body]
pub(crate) fn keyset_new() -> (set: AHashSet<[u8; 32]>)
    ensures
        held_keys(set) == Set::<Seq<u8>>::empty(),
{
    AHashSet::new()
}

/// Calls `contains` on the hash set that an `AHashSet` of ahash wraps: whether
/// the bytes of `address` are held.
#[verifier::external_body]
pub(crate) fn keyset_contains(set: &AHashSet<[u8; 32]>, address: &Address) -> (b: bool)
    ensures
        b == held_keys(*set).contains(address@),
{
    set.contains(&address.bytes)
}

/// Calls `insert` on the hash set that an `AHashSet` of ahash wraps: the bytes
/// of `address` are held afterwards, beside what was held before; the result
/// tells whether they were new.
#[verifier::external_body]
pub(crate) fn keyset_insert(set: &mut AHashSet<[u8; 32]>, address: &Address) -> (fresh: bool)
    ensures
        held_keys(*final(set)) == held_keys(*old(set)).insert(address@),
        fresh == !held_keys(*old(set)).contains(address@),
{
    set.insert(address.bytes)
}

} // verus!
