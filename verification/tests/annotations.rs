use uml_classifier::meta::MetaMap;
use uml_classifier::order::{place_of, place_of_bytes, Place};

fn names_of(map: &MetaMap<'static, u32>) -> Vec<&'static str> {
    (0..map.len()).map(|i| map.name_at(i)).collect()
}

fn values_of(map: &MetaMap<'static, u32>) -> Vec<u32> {
    (0..map.len()).map(|i| *map.value_at(i)).collect()
}

#[test]
fn a_new_map_is_empty() {
    let map: MetaMap<'static, u32> = MetaMap::new();
    assert_eq!(map.len(), 0);
    assert!(map.is_empty());
}

#[test]
fn insert_keeps_the_names_in_order() {
    let mut map = MetaMap::new();
    assert_eq!(map.insert("m", 1), None);
    assert_eq!(map.insert("z", 2), None);
    assert_eq!(map.insert("a", 3), None);
    assert_eq!(map.insert("n", 4), None);
    assert_eq!(names_of(&map), vec!["a", "m", "n", "z"]);
    assert_eq!(values_of(&map), vec![3, 1, 4, 2]);
    assert_eq!(map.len(), 4);
    assert!(!map.is_empty());
}

#[test]
fn insert_replaces_the_value_of_a_name() {
    let mut map = MetaMap::new();
    map.insert("a", 1);
    map.insert("b", 2);
    map.insert("c", 3);
    assert_eq!(map.insert("b", 20), Some(2));
    assert_eq!(names_of(&map), vec!["a", "b", "c"]);
    assert_eq!(values_of(&map), vec![1, 20, 3]);
    assert_eq!(map.insert("a", 10), Some(1));
    assert_eq!(map.insert("c", 30), Some(3));
    assert_eq!(values_of(&map), vec![10, 20, 30]);
}

#[test]
fn the_order_of_insertion_makes_no_difference() {
    let mut one = MetaMap::new();
    one.insert("x", 1);
    one.insert("y", 2);
    let mut other = MetaMap::new();
    other.insert("y", 2);
    other.insert("x", 1);
    assert!(one == other);
    assert_eq!(names_of(&one), names_of(&other));
}

#[test]
fn a_prefix_comes_before_the_longer_name() {
    let mut map = MetaMap::new();
    map.insert("abc", 3);
    map.insert("", 0);
    map.insert("ab", 2);
    map.insert("a", 1);
    assert_eq!(names_of(&map), vec!["", "a", "ab", "abc"]);
}

#[test]
fn names_are_ordered_by_their_bytes() {
    let mut map = MetaMap::new();
    map.insert("b", 1);
    map.insert("B", 2);
    map.insert("é", 3);
    map.insert("z", 4);
    map.insert("€", 5);
    map.insert("_", 6);
    assert_eq!(names_of(&map), vec!["B", "_", "b", "z", "é", "€"]);
    let mut sorted = names_of(&map);
    sorted.sort();
    assert_eq!(names_of(&map), sorted);
}

#[test]
fn into_entries_hands_out_the_entries_in_order() {
    let mut map = MetaMap::new();
    map.insert("two", 2);
    map.insert("one", 1);
    map.insert("three", 3);
    assert_eq!(map.into_entries(), vec![("one", 1), ("three", 3), ("two", 2)]);
}

#[test]
fn a_clone_has_the_same_entries() {
    let mut map = MetaMap::new();
    map.insert("k", 7);
    map.insert("j", 8);
    let copy = map.clone();
    assert!(copy == map);
    assert_eq!(names_of(&copy), vec!["j", "k"]);
    assert_eq!(values_of(&copy), vec![8, 7]);
}

#[test]
fn place_of_tells_the_three_places() {
    assert_eq!(place_of("a", "b"), Place::Before);
    assert_eq!(place_of("b", "a"), Place::After);
    assert_eq!(place_of("a", "a"), Place::Same);
    assert_eq!(place_of("", ""), Place::Same);
    assert_eq!(place_of("", "a"), Place::Before);
    assert_eq!(place_of("a", ""), Place::After);
    assert_eq!(place_of("ab", "abc"), Place::Before);
    assert_eq!(place_of("abd", "abc"), Place::After);
    assert_eq!(place_of("Z", "a"), Place::Before);
    assert_eq!(place_of("z", "é"), Place::Before);
}

#[test]
fn place_of_agrees_with_the_order_of_strings() {
    let names = ["", "a", "ab", "b", "B", "é", "€", "zz", "z", "😀", "a b"];
    for a in names {
        for b in names {
            let expected = if a < b {
                Place::Before
            } else if a == b {
                Place::Same
            } else {
                Place::After
            };
            assert_eq!(place_of(a, b), expected);
        }
    }
}

#[test]
fn place_of_bytes_reads_from_the_left() {
    assert_eq!(place_of_bytes(&[1, 2, 3], &[1, 2, 4]), Place::Before);
    assert_eq!(place_of_bytes(&[1, 2, 3], &[1, 2]), Place::After);
    assert_eq!(place_of_bytes(&[], &[0]), Place::Before);
    assert_eq!(place_of_bytes(&[255], &[0, 255]), Place::After);
    assert_eq!(place_of_bytes(&[7, 7], &[7, 7]), Place::Same);
}
