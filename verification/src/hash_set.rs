//! Intersection into a `HashSet`.
//!
//! What is promised of the result is promised for element types that obey
//! vstd's model of a hash-table key: hashing is deterministic and `==` holds of
//! identical values only. [`intersection`] can be called for any `T`.
use crate::model::{
    common_members, group_views, lemma_membership_in_sets, lemma_one_more_group,
    lemma_single_group,
};
use std::collections::HashSet;
use std::hash::Hash;
use vstd::prelude::*;
use vstd::std_specs::hash::obeys_key_model;

verus! {

/// Collects a group into the set of its elements. Repeated elements collapse.
fn from_group<T: Eq + Hash>(group: Vec<T>) -> (set: HashSet<T>)
    ensures
        obeys_key_model::<T>() ==> set@ == group@.to_set(),
{
    let ghost elements = group@;
    let mut set: HashSet<T> = HashSet::new();
    for x in it: group
        invariant
            it.seq() == elements,
            obeys_key_model::<T>() ==> set@ == elements.take(it.index()).to_set(),
    {
        proof {
            elements.lemma_take_succ_push(it.index());
            elements.take(it.index()).lemma_push_to_set_commute(x);
        }
        set.insert(x);
    }
    proof {
        elements.lemma_take_len();
    }
    set
}

/// Collects those elements of `group` that `held` contains: the intersection
/// of `held` with the set of the group's elements.
fn shared_with<T: Eq + Hash>(held: &HashSet<T>, group: Vec<T>) -> (set: HashSet<T>)
    ensures
        obeys_key_model::<T>() ==> set@ == held@.intersect(group@.to_set()),
{
    let ghost elements = group@;
    let mut set: HashSet<T> = HashSet::new();
    for x in it: group
        invariant
            it.seq() == elements,
            obeys_key_model::<T>() ==> set@ == held@.intersect(
                elements.take(it.index()).to_set(),
            ),
    {
        proof {
            let seen = elements.take(it.index());
            elements.lemma_take_succ_push(it.index());
            seen.lemma_push_to_set_commute(x);
            if held@.contains(x) {
                assert(held@.intersect(seen.to_set().insert(x)) =~= held@.intersect(
                    seen.to_set(),
                ).insert(x));
            } else {
                assert(held@.intersect(seen.to_set().insert(x)) =~= held@.intersect(
                    seen.to_set(),
                ));
            }
        }
        if held.contains(&x) {
            set.insert(x);
        }
    }
    proof {
        elements.lemma_take_len();
    }
    set
}

/// The elements common to all of `sets`, as a `HashSet`.
///
/// A group stands for the set of its elements. The first group is collected
/// into a set; each further group, from left to right, keeps of that set what
/// the group holds too. No groups give the empty set, and a single group gives
/// its own elements.
pub fn intersection<T: Clone + Eq + Hash>(sets: Vec<Vec<T>>) -> (shared: HashSet<T>)
    ensures
        obeys_key_model::<T>() ==> shared@ == common_members(group_views(sets@)),
        obeys_key_model::<T>() ==> forall|x: T| #[trigger]
            shared@.contains(x) <==> sets@.len() > 0 && forall|i: int|
                0 <= i < sets@.len() ==> (#[trigger] sets@[i])@.contains(x),
        sets@.len() == 0 ==> shared@ == Set::<T>::empty(),
{
    let ghost groups = group_views(sets@);
    let ghost listed = sets@;
    let mut folded: Option<HashSet<T>> = None;
    for group in it: sets
        invariant
            it.seq() == listed,
            groups == group_views(listed),
            folded is Some <==> it.index() > 0,
            obeys_key_model::<T>() && folded is Some ==> folded->0@ == common_members(
                groups.take(it.index()),
            ),
    {
        proof {
            let i = it.index();
            groups.lemma_take_succ_push(i);
            if i == 0 {
                assert(groups.take(0).push(group@) =~= seq![group@]);
                lemma_single_group(group@);
            } else {
                lemma_one_more_group(groups.take(i), group@);
            }
        }
        folded = Some(
            match folded {
                None => from_group(group),
                Some(held) => shared_with(&held, group),
            },
        );
    }
    proof {
        groups.lemma_take_len();
        lemma_membership_in_sets(listed);
    }
    folded.unwrap_or_default()
}

} // verus!
