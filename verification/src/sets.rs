//! Arbitrary extraction from a hash set: remove and return one element,
//! chosen by the set's internal iteration order — an arbitrary pick, not a
//! statistically random one. An empty set yields [`EmptyCollection`] instead
//! of undefined behaviour.
use vstd::prelude::*;

verus! {

use core::hash::Hash;
use std::collections::HashSet;
use vstd::std_specs::hash::obeys_key_model;

broadcast use vstd::std_specs::hash::group_hash_axioms;

/// Error returned by [`pop_set`] when the set holds no element.
#[derive(Clone, Copy, Debug, PartialEq, Eq, Structural)]
pub struct EmptyCollection;

/// Relies on `HashSet::iter`: its first element, when there is one, is an
/// element of the set; and on the key model's demand that `clone` on a key
/// returns a value identical to its input.
#[verifier::external_body]
fn pick_element<T: Clone + Eq + Hash>(set: &HashSet<T>) -> (r: Option<T>)
    ensures
        obeys_key_model::<T>() ==> match r {
            Some(x) => set@.contains(x),
            None => set@.len() == 0,
        },
{
    set.iter().next().cloned()
}

/// Remove and return one element of `set`, the one its internal iteration
/// order yields first — an arbitrary choice, not a uniform random pick.
/// Fails with [`EmptyCollection`] exactly when the set is empty.
pub fn pop_set<T: Clone + Eq + Hash>(set: &mut HashSet<T>) -> (r: Result<T, EmptyCollection>)
    ensures
        obeys_key_model::<T>() ==> match r {
            Ok(x) => {
                &&& old(set)@.contains(x)
                &&& final(set)@ == old(set)@.remove(x)
            },
            Err(e) => {
                &&& old(set)@.len() == 0
                &&& final(set)@ == old(set)@
                &&& e == (EmptyCollection {})
            },
        },
{
    match pick_element(&*set) {
        Some(x) => {
            set.remove(&x);
            Ok(x)
        },
        None => Err(EmptyCollection {}),
    }
}

} // verus!
