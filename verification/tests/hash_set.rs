use intersection::hash_set;
use std::collections::HashSet;

fn letters(words: &str) -> Vec<Vec<char>> {
    words.split(',').map(|word| word.chars().collect()).collect()
}

#[test]
fn hash_common_letters_of_three_words() {
    let common = hash_set::intersection(letters("hello,world,common"));
    assert_eq!(common, HashSet::from(['o']));
}

#[test]
fn hash_disjoint_groups_share_nothing() {
    let common = hash_set::intersection(vec![vec![1, 2, 3], vec![4, 5, 6]]);
    assert!(common.is_empty());
}

#[test]
fn hash_single_group_is_deduplicated() {
    let common = hash_set::intersection(vec![vec![1, 1, 2, 3]]);
    assert_eq!(common, HashSet::from([1, 2, 3]));
    assert_eq!(common.len(), 3);
}

#[test]
fn hash_no_groups_give_the_empty_set() {
    let none: Vec<Vec<i32>> = Vec::new();
    let common = hash_set::intersection(none);
    assert!(common.is_empty());
    assert_eq!(common, HashSet::new());
}

#[test]
fn hash_an_empty_group_empties_the_result() {
    let common = hash_set::intersection(vec![vec![1, 2, 3], vec![], vec![1, 2, 3]]);
    assert!(common.is_empty());
    let only: Vec<Vec<u8>> = vec![vec![]];
    assert!(hash_set::intersection(only).is_empty());
}

#[test]
fn hash_repeats_inside_groups_collapse() {
    let common = hash_set::intersection(vec![vec![7, 7, 8, 8, 9], vec![9, 9, 7, 7], vec![7, 9, 9, 9]]);
    assert_eq!(common, HashSet::from([7, 9]));
}

#[test]
fn hash_identical_groups_give_the_group() {
    let group = vec![4, 2, 4, 6];
    let common = hash_set::intersection(vec![group.clone(), group.clone(), group.clone()]);
    assert_eq!(common, HashSet::from([2, 4, 6]));
}

#[test]
fn hash_membership_is_membership_in_every_group() {
    let groups: Vec<Vec<u32>> = vec![vec![1, 2, 3, 4, 4], vec![2, 4, 6], vec![4, 2, 0, 9]];
    let common = hash_set::intersection(groups.clone());
    for x in 0..12u32 {
        let in_all = groups.iter().all(|group| group.contains(&x));
        assert_eq!(common.contains(&x), in_all);
    }
    assert_eq!(common.len(), 2);
}

#[test]
fn hash_group_with_itself_is_the_group() {
    let group = vec!['b', 'a', 'b', 'c'];
    let once = hash_set::intersection(vec![group.clone()]);
    let twice = hash_set::intersection(vec![group.clone(), group.clone()]);
    assert_eq!(twice, once);
    assert_eq!(twice, HashSet::from(['a', 'b', 'c']));
}

#[test]
fn hash_doubled_list_changes_nothing() {
    let groups = letters("stone,notes,onset,tones");
    let mut doubled = groups.clone();
    doubled.extend(groups.clone());
    assert_eq!(hash_set::intersection(doubled), hash_set::intersection(groups.clone()));
    assert_eq!(hash_set::intersection(groups), HashSet::from(['s', 't', 'o', 'n', 'e']));
}

#[test]
fn hash_order_of_groups_does_not_matter() {
    let a = vec![1, 2, 3, 5, 8];
    let b = vec![2, 3, 5, 7];
    let c = vec![5, 3, 1];
    let expected = HashSet::from([3, 5]);
    assert_eq!(hash_set::intersection(vec![a.clone(), b.clone(), c.clone()]), expected);
    assert_eq!(hash_set::intersection(vec![a.clone(), c.clone(), b.clone()]), expected);
    assert_eq!(hash_set::intersection(vec![b.clone(), a.clone(), c.clone()]), expected);
    assert_eq!(hash_set::intersection(vec![b.clone(), c.clone(), a.clone()]), expected);
    assert_eq!(hash_set::intersection(vec![c.clone(), a.clone(), b.clone()]), expected);
    assert_eq!(hash_set::intersection(vec![c, b, a]), expected);
}

#[test]
fn hash_order_inside_groups_does_not_matter() {
    let forwards = hash_set::intersection(vec![vec![1, 2, 3], vec![2, 3, 4]]);
    let backwards = hash_set::intersection(vec![vec![3, 2, 1], vec![4, 3, 2]]);
    assert_eq!(forwards, backwards);
    assert_eq!(forwards, HashSet::from([2, 3]));
}

#[test]
fn hash_later_groups_only_narrow() {
    let two = hash_set::intersection(vec![vec![1, 2, 3, 4], vec![2, 3, 4, 5]]);
    let three = hash_set::intersection(vec![vec![1, 2, 3, 4], vec![2, 3, 4, 5], vec![3, 4, 5, 6]]);
    assert_eq!(two, HashSet::from([2, 3, 4]));
    assert_eq!(three, HashSet::from([3, 4]));
    assert!(three.is_subset(&two));
}

#[test]
fn hash_elements_that_own_their_data() {
    let groups: Vec<Vec<String>> = vec![
        vec!["ash".to_string(), "oak".to_string(), "elm".to_string()],
        vec!["elm".to_string(), "fir".to_string(), "ash".to_string(), "ash".to_string()],
    ];
    let common = hash_set::intersection(groups);
    assert_eq!(common, HashSet::from(["ash".to_string(), "elm".to_string()]));
}
