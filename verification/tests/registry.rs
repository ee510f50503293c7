use debuggable::registry::Registry;

#[test]
fn push_hands_out_ascending_indices() {
    let mut registry: Registry<&str> = Registry::new();
    assert_eq!(registry.push("a"), 0);
    assert_eq!(registry.push("b"), 1);
    assert_eq!(registry.push("c"), 2);
    assert_eq!(registry.get(0), Some(&"a"));
    assert_eq!(registry.get(1), Some(&"b"));
    assert_eq!(registry.get(2), Some(&"c"));
}

#[test]
fn absent_index_is_no_fault() {
    let mut registry: Registry<u8> = Registry::new();
    assert_eq!(registry.get(0), None);
    assert_eq!(registry.get(usize::MAX), None);
    assert!(registry.get_mut(5).is_none());
    assert_eq!(registry.remove(5), None);
    assert!(!registry.contains_index(0));
    registry.push(9);
    assert_eq!(registry.get(1), None);
    assert_eq!(registry.remove(1), None);
    assert_eq!(registry.get(0), Some(&9));
}

#[test]
fn remove_returns_the_element_and_frees_the_slot() {
    let mut registry: Registry<String> = Registry::new();
    registry.push("a".to_string());
    registry.push("b".to_string());
    assert_eq!(registry.remove(0), Some("a".to_string()));
    assert_eq!(registry.remove(0), None);
    assert!(!registry.contains_index(0));
    assert!(registry.contains_index(1));
    assert_eq!(registry.get(1), Some(&"b".to_string()));
}

#[test]
fn lowest_free_slot_is_reused() {
    let mut registry: Registry<u32> = Registry::new();
    for value in 0..5 {
        registry.push(value);
    }
    registry.remove(3);
    registry.remove(1);
    assert_eq!(registry.push(10), 1);
    assert_eq!(registry.push(11), 3);
    assert_eq!(registry.push(12), 5);
    assert_eq!(registry.get(1), Some(&10));
    assert_eq!(registry.get(3), Some(&11));
    assert_eq!(registry.get(5), Some(&12));
}

#[test]
fn get_mut_changes_in_place() {
    let mut registry: Registry<Vec<u8>> = Registry::new();
    registry.push(vec![1]);
    registry.push(vec![2]);
    registry.get_mut(1).unwrap().push(3);
    assert_eq!(registry.get(0), Some(&vec![1]));
    assert_eq!(registry.get(1), Some(&vec![2, 3]));
}

#[test]
fn iter_index_skips_holes_in_ascending_order() {
    let mut registry: Registry<char> = Registry::new();
    for c in ['a', 'b', 'c', 'd'] {
        registry.push(c);
    }
    registry.remove(0);
    registry.remove(2);
    let listed: Vec<(usize, char)> = registry.iter_index().into_iter().map(|(i, c)| (i, *c)).collect();
    assert_eq!(listed, vec![(1, 'b'), (3, 'd')]);
    let empty: Registry<char> = Registry::new();
    assert!(empty.iter_index().is_empty());
}
