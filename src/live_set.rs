//! The live-set snapshot of one generation: a hash set of the coordinates of
//! the cells that are alive, held in bevy's `HashSet`.

use bevy::platform::collections::HashSet;
use bevy::platform::hash::FixedHasher;
use vstd::prelude::*;

verus! {

/// The coordinates of the live cells of one generation.
pub type LiveSet = HashSet<(i32, i32, i32)>;

#[verifier::external_type_specification]
#[verifier::external_body]
#[verifier::reject_recursive_types(T)]
#[verifier::reject_recursive_types(S)]
pub struct ExHashSet<T, S>(HashSet<T, S>);

#[verifier::external_type_specification]
#[verifier::external_body]
pub struct ExFixedHasher(FixedHasher);

/// The coordinates that a live set holds.
pub uninterp spec fn live_members(s: HashSet<(i32, i32, i32)>) -> Set<(int, int, int)>;

/// Relies on bevy_platform's `HashSet::new`: the new set is empty.
#[verifier::external_body]
pub(crate) fn live_set_new() -> (r: LiveSet)
    ensures
        live_members(r) == Set::<(int, int, int)>::empty(),
{
    HashSet::new()
}

/// Relies on bevy_platform's `HashSet::insert`: afterwards the set holds what
/// it held before and `v`.
#[verifier::external_body]
pub(crate) fn live_set_insert(s: &mut LiveSet, v: (i32, i32, i32))
    ensures
        live_members(*final(s)) == live_members(*old(s)).insert((v.0 as int, v.1 as int, v.2 as int)),
{
    s.insert(v);
}

/// Relies on bevy_platform's `HashSet::contains`: whether `v` is a member.
#[verifier::external_body]
pub(crate) fn live_set_contains(s: &LiveSet, v: (i32, i32, i32)) -> (r: bool)
    ensures
        r == live_members(*s).contains((v.0 as int, v.1 as int, v.2 as int)),
{
    s.contains(&v)
}

} // verus!
