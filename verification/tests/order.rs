use bevy_crossterm::components::EntityDepth;
use bevy_crossterm::order::sort_by_depth;

fn entries(pairs: &[(u64, i32)]) -> Vec<EntityDepth> {
    pairs.iter().map(|&(entity, z)| EntityDepth { entity, z }).collect()
}

#[test]
fn entries_are_sorted_by_depth() {
    let mut list = entries(&[(1, 5), (2, -1), (3, 3), (4, i32::MIN), (5, i32::MAX)]);
    sort_by_depth(&mut list);
    assert_eq!(list, entries(&[(4, i32::MIN), (2, -1), (3, 3), (1, 5), (5, i32::MAX)]));
}

#[test]
fn entries_of_one_depth_keep_their_order() {
    let mut list = entries(&[(1, 2), (2, 1), (3, 2), (4, 1), (5, 2), (6, 0), (1, 2)]);
    sort_by_depth(&mut list);
    assert_eq!(list, entries(&[(6, 0), (2, 1), (4, 1), (1, 2), (3, 2), (5, 2), (1, 2)]));
}

#[test]
fn short_lists_stay_as_they_are() {
    let mut none = entries(&[]);
    sort_by_depth(&mut none);
    assert!(none.is_empty());
    let mut one = entries(&[(9, 9)]);
    sort_by_depth(&mut one);
    assert_eq!(one, entries(&[(9, 9)]));
}

#[test]
fn a_long_list_comes_out_as_the_standard_stable_sort_gives_it() {
    let mut list: Vec<EntityDepth> = (0..500u64)
        .map(|entity| EntityDepth { entity, z: ((entity * 7919) % 13) as i32 - 6 })
        .collect();
    let mut expected = list.clone();
    expected.sort_by_key(|entry| entry.z);
    sort_by_depth(&mut list);
    assert_eq!(list, expected);
}
