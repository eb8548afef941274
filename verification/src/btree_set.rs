//! Intersection into a `BTreeSet`.
//!
//! What is promised of the result is promised for element types whose order
//! obeys vstd's laws of a total order. [`intersection`] can be called for any
//! `T`.
use crate::model::{
    common_members, group_views, lemma_membership_in_sets, lemma_one_more_group,
    lemma_single_group,
};
use std::collections::BTreeSet;
use vstd::laws_cmp::obeys_cmp;
use vstd::prelude::*;
use vstd::std_specs::cmp::OrdSpec;
use vstd::std_specs::iter::IteratorSpec;

verus! {

/// Whether each element of `order` is less than all that come after it.
pub open spec fn ascending<T: Ord>(order: Seq<T>) -> bool {
    forall|i: int, j: int| 0 <= i < j < order.len() ==> order[i].cmp_spec(&order[j]) is Less
}

/// Iterating a `BTreeSet` yields each of its elements once, in ascending
/// order.
pub proof fn lemma_iteration_ascending<T: Ord>(set: &BTreeSet<T>)
    requires
        obeys_cmp::<T>(),
    ensures
        set.iter().remaining().unref().to_set() == set@,
        set.iter().remaining().unref().no_duplicates(),
        ascending(set.iter().remaining().unref()),
{
    let yielded = set.iter().remaining();
    let order = yielded.unref();
    assert forall|i: int, j: int| 0 <= i < j < order.len() implies order[i].cmp_spec(
        &order[j],
    ) is Less by {
        assert(OrdSpec::cmp_spec(&yielded[i], &yielded[j]) is Less);
    }
}

/// Collects a group into the set of its elements. Repeated elements collapse.
fn from_group<T: Ord>(group: Vec<T>) -> (set: BTreeSet<T>)
    ensures
        obeys_cmp::<T>() ==> set@ == group@.to_set(),
{
    let ghost elements = group@;
    let mut set: BTreeSet<T> = BTreeSet::new();
    for x in it: group
        invariant
            it.seq() == elements,
            obeys_cmp::<T>() ==> set@ == elements.take(it.index()).to_set(),
    {
        proof {
            elements.lemma_take_succ_push(it.index());
            elements.take(it.index()).lemma_push_to_set_commute(x);
        }
        set.insert(x);
    }
    proof {
        elements.lemma_take_len();
    }
    set
}

/// Collects those elements of `group` that `held` contains: the intersection
/// of `held` with the set of the group's elements.
fn shared_with<T: Ord>(held: &BTreeSet<T>, group: Vec<T>) -> (set: BTreeSet<T>)
    ensures
        obeys_cmp::<T>() ==> set@ == held@.intersect(group@.to_set()),
{
    let ghost elements = group@;
    let mut set: BTreeSet<T> = BTreeSet::new();
    for x in it: group
        invariant
            it.seq() == elements,
            obeys_cmp::<T>() ==> set@ == held@.intersect(elements.take(it.index()).to_set()),
    {
        proof {
            let seen = elements.take(it.index());
            elements.lemma_take_succ_push(it.index());
            seen.lemma_push_to_set_commute(x);
            if held@.contains(x) {
                assert(held@.intersect(seen.to_set().insert(x)) =~= held@.intersect(
                    seen.to_set(),
                ).insert(x));
            } else {
                assert(held@.intersect(seen.to_set().insert(x)) =~= held@.intersect(
                    seen.to_set(),
                ));
            }
        }
        if held.contains(&x) {
            set.insert(x);
        }
    }
    proof {
        elements.lemma_take_len();
    }
    set
}

/// The elements common to all of `sets`, as a `BTreeSet`.
///
/// A group stands for the set of its elements. The first group is collected
/// into a set; each further group, from left to right, keeps of that set what
/// the group holds too. No groups give the empty set, and a single group gives
/// its own elements. Iterating the result yields its elements in ascending
/// order.
pub fn intersection<T: Clone + Ord>(sets: Vec<Vec<T>>) -> (shared: BTreeSet<T>)
    ensures
        obeys_cmp::<T>() ==> shared@ == common_members(group_views(sets@)),
        obeys_cmp::<T>() ==> forall|x: T| #[trigger]
            shared@.contains(x) <==> sets@.len() > 0 && forall|i: int|
                0 <= i < sets@.len() ==> (#[trigger] sets@[i])@.contains(x),
        sets@.len() == 0 ==> shared@ == Set::<T>::empty(),
        obeys_cmp::<T>() ==> shared.iter().remaining().unref().to_set() == shared@,
        obeys_cmp::<T>() ==> shared.iter().remaining().unref().no_duplicates(),
        obeys_cmp::<T>() ==> ascending(shared.iter().remaining().unref()),
{
    let ghost groups = group_views(sets@);
    let ghost listed = sets@;
    let mut folded: Option<BTreeSet<T>> = None;
    for group in it: sets
        invariant
            it.seq() == listed,
            groups == group_views(listed),
            folded is Some <==> it.index() > 0,
            obeys_cmp::<T>() && folded is Some ==> folded->0@ == common_members(
                groups.take(it.index()),
            ),
    {
        proof {
            let i = it.index();
            groups.lemma_take_succ_push(i);
            if i == 0 {
                assert(groups.take(0).push(group@) =~= seq![group@]);
                lemma_single_group(group@);
            } else {
                lemma_one_more_group(groups.take(i), group@);
            }
        }
        folded = Some(
            match folded {
                None => from_group(group),
                Some(held) => shared_with(&held, group),
            },
        );
    }
    proof {
        groups.lemma_take_len();
        lemma_membership_in_sets(listed);
    }
    let shared = folded.unwrap_or_default();
    proof {
        if obeys_cmp::<T>() {
            lemma_iteration_ascending(&shared);
        }
    }
    shared
}

} // verus!
