use stable_index_vec::{Iter, SIVKey, StableIndexVec};

fn collect_pairs<'a>(mut it: Iter<'a, isize>) -> Vec<(SIVKey, &'a isize)> {
    let mut out = Vec::new();
    while let Some(pair) = it.next() {
        out.push(pair);
    }
    out
}

fn collect_keys(container: &StableIndexVec<isize>) -> Vec<SIVKey> {
    let mut it = container.keys();
    let mut out = Vec::new();
    while let Some(key) = it.next() {
        out.push(key);
    }
    out
}

fn collect_values(container: &StableIndexVec<isize>) -> Vec<&isize> {
    let mut it = container.values();
    let mut out = Vec::new();
    while let Some(value) = it.next() {
        out.push(value);
    }
    out
}

#[test]
fn len_is_correct() {
    let mut container = StableIndexVec::<isize>::new();
    let key1 = container.add(1);
    assert_eq!(container.len(), 1);

    let key2 = container.add(2);
    assert_eq!(container.len(), 2);

    let key3 = container.add(3);
    assert_eq!(container.len(), 3);

    let key4 = container.add(4);
    assert_eq!(container.len(), 4);

    container.remove(key1);
    assert_eq!(container.len(), 3);

    container.remove(key3);
    assert_eq!(container.len(), 2);

    container.remove(key2);
    assert_eq!(container.len(), 1);

    container.remove(key4);
    assert_eq!(container.len(), 0);
}

#[test]
fn add_and_get_work() {
    let mut container = StableIndexVec::<isize>::new();
    let key1 = container.add(1);
    let key2 = container.add(2);
    let key3 = container.add(3);
    let key4 = container.add(4);

    assert_eq!(container.get(key1), Some(&1));
    assert_eq!(container.get(key2), Some(&2));
    assert_eq!(container.get(key3), Some(&3));
    assert_eq!(container.get(key4), Some(&4));
}

#[test]
fn keys_are_stable_when_removing_from_start() {
    let mut container = StableIndexVec::<isize>::new();
    let key1 = container.add(1);
    let key2 = container.add(2);
    let key3 = container.add(3);
    let key4 = container.add(4);

    let removed = container.remove(key1);
    assert_eq!(removed, Some(1));

    assert_eq!(container.get(key1), None);
    assert_eq!(container.get(key2), Some(&2));
    assert_eq!(container.get(key3), Some(&3));
    assert_eq!(container.get(key4), Some(&4));
}

#[test]
fn keys_are_stable_when_removing_from_middle() {
    let mut container = StableIndexVec::<isize>::new();
    let key1 = container.add(1);
    let key2 = container.add(2);
    let key3 = container.add(3);
    let key4 = container.add(4);

    let removed = container.remove(key2);
    assert_eq!(removed, Some(2));

    assert_eq!(container.get(key1), Some(&1));
    assert_eq!(container.get(key2), None);
    assert_eq!(container.get(key3), Some(&3));
    assert_eq!(container.get(key4), Some(&4));
}

#[test]
fn keys_are_stable_when_removing_from_end() {
    let mut container = StableIndexVec::<isize>::new();
    let key1 = container.add(1);
    let key2 = container.add(2);
    let key3 = container.add(3);
    let key4 = container.add(4);

    let removed = container.remove(key4);
    assert_eq!(removed, Some(4));

    assert_eq!(container.get(key1), Some(&1));
    assert_eq!(container.get(key2), Some(&2));
    assert_eq!(container.get(key3), Some(&3));
    assert_eq!(container.get(key4), None);
}

#[test]
fn keys_are_not_reused_after_removal() {
    let mut container = StableIndexVec::<isize>::new();
    let key1 = container.add(1);
    let key2 = container.add(2);
    let key3 = container.add(3);
    let key4 = container.add(4);

    container.remove(key2);
    container.remove(key4);

    assert_eq!(container.get(key1), Some(&1));
    assert_eq!(container.get(key2), None);
    assert_eq!(container.get(key3), Some(&3));
    assert_eq!(container.get(key4), None);

    let key5 = container.add(5);
    let key6 = container.add(6);

    // keys are not reused after free
    assert!(![key2, key4].contains(&key5));
    assert!(![key2, key4].contains(&key6));

    assert_eq!(container.get(key1), Some(&1));
    assert_eq!(container.get(key2), None);
    assert_eq!(container.get(key3), Some(&3));
    assert_eq!(container.get(key4), None);
    assert_eq!(container.get(key5), Some(&5));
    assert_eq!(container.get(key6), Some(&6));
}

#[test]
fn removing_valid_index_returns_value() {
    let mut container = StableIndexVec::<isize>::new();
    let key = container.add(1);

    assert_eq!(container.remove(key), Some(1));
    assert_eq!(container.get(key), None);
}

#[test]
fn removing_invalid_index_returns_none() {
    let mut container = StableIndexVec::<isize>::new();
    let key = container.add(1);
    container.remove(key);
    container.add(1);

    assert_eq!(container.remove(key), None);
}

#[test]
fn removing_valid_index_twice_returns_none() {
    let mut container = StableIndexVec::<isize>::new();
    let key = container.add(1);

    assert_eq!(container.remove(key), Some(1));
    assert_eq!(container.remove(key), None);
}

#[test]
fn iter_yields_all_elements() {
    let mut container = StableIndexVec::new();
    container.add(1);
    container.add(2);
    container.add(3);

    let collected = collect_pairs(container.iter());

    assert_eq!(collected.len(), 3);

    let values: Vec<isize> = collected.iter().map(|(_, v)| **v).collect();
    assert!(values.contains(&1));
    assert!(values.contains(&2));
    assert!(values.contains(&3));
}

#[test]
fn iter_skips_removed_elements() {
    let mut container = StableIndexVec::new();
    container.add(1);
    let key = container.add(2);
    container.add(3);

    container.remove(key);

    let collected = collect_pairs(container.iter());

    assert_eq!(collected.len(), 2);

    let values: Vec<isize> = collected.iter().map(|(_, v)| **v).collect();
    assert!(values.contains(&1));
    assert!(!values.contains(&2)); // removed value should not be present
    assert!(values.contains(&3));
}

#[test]
fn iter_works_on_empty_container() {
    let container = StableIndexVec::<isize>::new();
    let collected = collect_pairs(container.iter());
    assert_eq!(collected.len(), 0);
}

#[test]
fn iter_keys_match_get() {
    let mut container = StableIndexVec::new();
    container.add(1);
    container.add(2);
    container.add(3);

    for (key, value) in collect_pairs(container.iter()) {
        assert_eq!(container.get(key), Some(value));
    }
}

#[test]
fn iter_count_matches_elements_after_operations() {
    let mut container = StableIndexVec::new();
    let key1 = container.add(1);
    container.add(2);
    let key3 = container.add(3);
    container.add(4);

    container.remove(key1);
    container.remove(key3);

    let count = collect_pairs(container.iter()).len();
    assert_eq!(count, 2);

    container.add(5);
    let count = collect_pairs(container.iter()).len();
    assert_eq!(count, 3);
}

#[test]
fn keys_returns_all_valid_keys() {
    let mut container = StableIndexVec::new();
    let key1 = container.add(1);
    let key2 = container.add(2);
    let key3 = container.add(3);

    let mut keys = collect_keys(&container);

    assert_eq!(keys.len(), 3);

    keys.sort();
    assert_eq!(keys, [key1, key2, key3]);
}

#[test]
fn keys_excludes_removed_elements() {
    let mut container = StableIndexVec::new();
    let key1 = container.add(1);
    let key2 = container.add(2);
    let key3 = container.add(3);

    container.remove(key2);

    let mut keys = collect_keys(&container);

    assert_eq!(keys.len(), 2);

    keys.sort();
    assert_eq!(keys, [key1, key3]);
}

#[test]
fn keys_is_lazy() {
    let mut container = StableIndexVec::new();
    container.add(1);
    container.add(2);
    container.add(3);

    // Getting just the first key should not iterate through all
    let first_key = container.keys().next();
    assert!(first_key.is_some());

    // Can get just the first 2 keys
    let mut keys = container.keys();
    let mut first_two = Vec::new();
    for _ in 0..2 {
        if let Some(key) = keys.next() {
            first_two.push(key);
        }
    }
    assert_eq!(first_two.len(), 2);
}

#[test]
fn keys_works_on_empty_container() {
    let container = StableIndexVec::<isize>::new();
    let keys = collect_keys(&container);
    assert_eq!(keys.len(), 0);
}

#[test]
fn keys_are_all_valid() {
    let mut container = StableIndexVec::new();
    container.add(1);
    container.add(2);
    container.add(3);

    // Every key from keys() should work with get()
    for key in collect_keys(&container) {
        assert!(container.get(key).is_some());
    }
}

#[test]
fn values_returns_all_valid_values() {
    let mut container = StableIndexVec::new();
    container.add(1);
    container.add(2);
    container.add(3);

    let mut values = collect_values(&container);

    assert_eq!(values.len(), 3);

    values.sort();
    assert_eq!(values, [&1, &2, &3]);
}

#[test]
fn values_excludes_removed_elements() {
    let mut container = StableIndexVec::new();
    container.add(1);
    let key2 = container.add(2);
    container.add(3);

    container.remove(key2);

    let mut values = collect_values(&container);

    assert_eq!(values.len(), 2);

    values.sort();
    assert_eq!(values, [&1, &3]);
}

#[test]
fn values_is_lazy() {
    let mut container = StableIndexVec::new();
    container.add(1);
    container.add(2);
    container.add(3);

    // Getting just the first value should not iterate through all
    let first_value = container.values().next();
    assert!(first_value.is_some());

    // Can get just the first 2 values
    let mut values = container.values();
    let mut first_two = Vec::new();
    for _ in 0..2 {
        if let Some(value) = values.next() {
            first_two.push(value);
        }
    }
    assert_eq!(first_two.len(), 2);
}

#[test]
fn values_works_on_empty_container() {
    let container = StableIndexVec::<isize>::new();
    let values = collect_keys(&container);
    assert_eq!(values.len(), 0);
}

#[test]
fn values_are_all_valid() {
    let mut container = StableIndexVec::new();
    container.add(1);
    container.add(2);
    container.add(3);

    for value in collect_values(&container) {
        assert!(container.contains(value));
    }
}
