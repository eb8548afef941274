//! What a multi-way intersection holds, stated over sequences and sets, and
//! the laws of that definition.
use vstd::prelude::*;

verus! {

/// The groups held by `sets`, each as the sequence of its elements.
pub open spec fn group_views<T>(sets: Seq<Vec<T>>) -> Seq<Seq<T>> {
    Seq::new(sets.len(), |i: int| sets[i]@)
}

/// Whether `x` occurs in each group of `groups`.
pub open spec fn in_every_group<T>(groups: Seq<Seq<T>>, x: T) -> bool {
    forall|i: int| 0 <= i < groups.len() ==> (#[trigger] groups[i]).contains(x)
}

/// The elements common to all of `groups`.
///
/// With no group at all the result is empty: nothing is known to be common,
/// and the universe of `T` is not a set one could hand out.
pub open spec fn common_members<T>(groups: Seq<Seq<T>>) -> Set<T> {
    Set::new(|x: T| groups.len() > 0 && in_every_group(groups, x))
}

/// Membership in the intersection of at least one group is membership in
/// every group.
pub proof fn lemma_membership<T>(groups: Seq<Seq<T>>, x: T)
    requires
        groups.len() > 0,
    ensures
        common_members(groups).contains(x) <==> forall|i: int|
            0 <= i < groups.len() ==> (#[trigger] groups[i]).contains(x),
{
}

/// The same for the groups of `sets`, element by element: `x` is common to
/// them when there is a set at all and each of them holds `x`.
pub proof fn lemma_membership_in_sets<T>(sets: Seq<Vec<T>>)
    ensures
        forall|x: T| #[trigger]
            common_members(group_views(sets)).contains(x) <==> sets.len() > 0 && forall|i: int|
                0 <= i < sets.len() ==> (#[trigger] sets[i])@.contains(x),
{
    let groups = group_views(sets);
    assert forall|x: T| #[trigger]
        common_members(groups).contains(x) <==> sets.len() > 0 && forall|i: int|
            0 <= i < sets.len() ==> (#[trigger] sets[i])@.contains(x) by {
        if common_members(groups).contains(x) {
            assert forall|i: int| 0 <= i < sets.len() implies (#[trigger] sets[i])@.contains(
                x,
            ) by {
                assert(groups[i].contains(x));
            }
        }
    }
}

/// No groups have nothing in common.
pub proof fn lemma_no_groups<T>()
    ensures
        common_members(Seq::<Seq<T>>::empty()) == Set::<T>::empty(),
{
}

/// A single group intersects to its own elements, each counted once.
pub proof fn lemma_single_group<T>(group: Seq<T>)
    ensures
        common_members(seq![group]) == group.to_set(),
{
    assert(seq![group][0] == group);
}

/// Taking one more group into account intersects with that group's elements.
pub proof fn lemma_one_more_group<T>(groups: Seq<Seq<T>>, group: Seq<T>)
    requires
        groups.len() > 0,
    ensures
        common_members(groups.push(group)) == common_members(groups).intersect(group.to_set()),
{
    let longer = groups.push(group);
    assert forall|x: T| common_members(longer).contains(x) implies common_members(
        groups,
    ).intersect(group.to_set()).contains(x) by {
        assert forall|i: int| 0 <= i < groups.len() implies (#[trigger] groups[i]).contains(x) by {
            assert(longer[i] == groups[i]);
        }
        assert(longer[groups.len() as int] == group);
    }
}

/// A group counts through the set of its elements alone: neither the order
/// of the elements inside a group nor their repetition changes the
/// intersection.
pub proof fn lemma_elements_alone_count<T>(left: Seq<Seq<T>>, right: Seq<Seq<T>>)
    requires
        left.len() == right.len(),
        forall|i: int| 0 <= i < left.len() ==> (#[trigger] left[i]).to_set() == right[i].to_set(),
    ensures
        common_members(left) == common_members(right),
{
    assert forall|x: T, i: int| 0 <= i < left.len() implies (left[i].contains(x)
        <==> #[trigger] right[i].contains(x)) by {
        assert(left[i].to_set().contains(x) <==> right[i].to_set().contains(x));
    }
}

/// Two lists that name the same groups, in whatever order and however often,
/// have the same intersection.
pub proof fn lemma_same_groups<T>(left: Seq<Seq<T>>, right: Seq<Seq<T>>)
    requires
        forall|i: int| 0 <= i < left.len() ==> right.contains(#[trigger] left[i]),
        forall|j: int| 0 <= j < right.len() ==> left.contains(#[trigger] right[j]),
    ensures
        common_members(left) == common_members(right),
{
    if left.len() > 0 {
        assert(right.contains(left[0]));
    }
    if right.len() > 0 {
        assert(left.contains(right[0]));
    }
}

/// The order of the groups does not matter: a rearrangement of the list has
/// the same intersection.
pub proof fn lemma_order_independent<T>(groups: Seq<Seq<T>>, rearranged: Seq<Seq<T>>)
    requires
        groups.to_multiset() == rearranged.to_multiset(),
    ensures
        common_members(rearranged) == common_members(groups),
{
    assert forall|i: int| 0 <= i < groups.len() implies rearranged.contains(
        #[trigger] groups[i],
    ) by {
        vstd::seq_lib::to_multiset_contains(groups, groups[i]);
        vstd::seq_lib::to_multiset_contains(rearranged, groups[i]);
    }
    assert forall|j: int| 0 <= j < rearranged.len() implies groups.contains(
        #[trigger] rearranged[j],
    ) by {
        vstd::seq_lib::to_multiset_contains(rearranged, rearranged[j]);
        vstd::seq_lib::to_multiset_contains(groups, rearranged[j]);
    }
    lemma_same_groups(rearranged, groups);
}

/// Listing every group twice changes nothing.
pub proof fn lemma_repeated_list<T>(groups: Seq<Seq<T>>)
    ensures
        common_members(groups + groups) == common_members(groups),
{
    let twice = groups + groups;
    assert forall|j: int| 0 <= j < groups.len() implies twice.contains(#[trigger] groups[j]) by {
        assert(twice[j] == groups[j]);
    }
    lemma_same_groups(twice, groups);
}

/// Intersecting a group with itself gives the group's own elements.
pub proof fn lemma_group_with_itself<T>(group: Seq<T>)
    ensures
        common_members(seq![group, group]) == common_members(seq![group]),
        common_members(seq![group, group]) == group.to_set(),
{
    assert(seq![group, group] =~= seq![group] + seq![group]);
    lemma_repeated_list(seq![group]);
    lemma_single_group(group);
}

} // verus!
