use dualmap::DualHashMap;

#[test]
fn test_insert_and_get_by_k1() {
    let mut m: DualHashMap<u64> = DualHashMap::new();
    m.insert(1, 10, 100);
    m.insert(2, 10, 200);
    m.insert(3, 20, 300);
    assert_eq!(m.get_by_k1(&1), Some(&100));
    assert_eq!(m.get_by_k1(&2), Some(&200));
    assert_eq!(m.get_by_k1(&3), Some(&300));
    assert_eq!(m.get_by_k1(&4), None);
}

#[test]
fn test_rekeying() {
    let mut m: DualHashMap<u64> = DualHashMap::new();
    m.insert(1, 10, 1);
    m.insert(1, 20, 2);
    assert_eq!(m.get_by_k1(&1), Some(&2));
    let old_bucket = m.get_by_k2(&10);
    assert!(old_bucket.is_empty());
    let new_bucket = m.get_by_k2(&20);
    assert_eq!(new_bucket, vec![&2]);
    assert!(!m.contains_k2(&10));
    assert!(m.contains_k2(&20));
    assert_eq!(m.len(), 1);
}

#[test]
fn test_rekeying_same_bucket_updates_value() {
    let mut m: DualHashMap<u64> = DualHashMap::new();
    m.insert(1, 10, 1);
    m.insert(1, 10, 2);
    assert_eq!(m.get_by_k1(&1), Some(&2));
    assert_eq!(m.get_by_k2(&10), vec![&2]);
    assert_eq!(m.len(), 1);
}

#[test]
fn test_bucket_removal_cascade() {
    let mut m: DualHashMap<u64> = DualHashMap::new();
    m.insert(1, 10, 1);
    m.insert(2, 10, 2);
    m.remove_by_k2(&10);
    assert_eq!(m.get_by_k1(&1), None);
    assert_eq!(m.get_by_k1(&2), None);
    assert!(!m.contains_k2(&10));
    assert!(m.is_empty());
}

#[test]
fn test_primary_removal_prunes_bucket() {
    let mut m: DualHashMap<u64> = DualHashMap::new();
    m.insert(1, 10, 1);
    m.remove_by_k1(&1);
    assert!(!m.contains_k2(&10));
    assert!(m.get_k1s_by_k2(&10).is_none());
    assert!(m.is_empty());
}

#[test]
fn test_primary_removal_keeps_shared_bucket() {
    let mut m: DualHashMap<u64> = DualHashMap::new();
    m.insert(1, 10, 1);
    m.insert(2, 10, 2);
    m.remove_by_k1(&1);
    assert!(m.contains_k2(&10));
    assert_eq!(m.get_by_k2(&10), vec![&2]);
    assert_eq!(m.len(), 1);
}

#[test]
fn test_remove_missing_is_noop() {
    let mut m: DualHashMap<u64> = DualHashMap::new();
    m.insert(1, 10, 1);
    m.remove_by_k1(&7);
    m.remove_by_k2(&70);
    assert_eq!(m.len(), 1);
    assert_eq!(m.get_by_k1(&1), Some(&1));
    assert!(m.contains_k2(&10));
    let mut empty: DualHashMap<u64> = DualHashMap::new();
    empty.remove_by_k1(&7);
    empty.remove_by_k2(&70);
    assert!(empty.is_empty());
}

#[test]
fn test_len_tracks_primary_keys_only() {
    let mut m: DualHashMap<u64> = DualHashMap::new();
    assert_eq!(m.len(), 0);
    assert!(m.is_empty());
    m.insert(1, 10, 1);
    m.insert(2, 20, 2);
    m.insert(3, 30, 3);
    assert_eq!(m.len(), 3);
    m.insert(1, 40, 9);
    assert_eq!(m.len(), 3);
    m.remove_by_k1(&2);
    assert_eq!(m.len(), 2);
    m.remove_by_k1(&2);
    assert_eq!(m.len(), 2);
    m.remove_by_k2(&30);
    assert_eq!(m.len(), 1);
    assert!(!m.is_empty());
}

#[test]
fn test_get_k1s_by_k2() {
    let mut m: DualHashMap<u64> = DualHashMap::new();
    m.insert(1, 10, 1);
    m.insert(2, 10, 2);
    let k1s = m.get_k1s_by_k2(&10).unwrap();
    let mut sorted = k1s.clone();
    sorted.sort();
    assert_eq!(sorted, vec![1, 2]);
    assert!(m.get_k1s_by_k2(&20).is_none());
}

#[test]
fn test_get_by_k2_unknown_is_empty() {
    let m: DualHashMap<u64> = DualHashMap::new();
    assert!(m.get_by_k2(&10).is_empty());
}

#[test]
fn test_get_keys() {
    let mut m: DualHashMap<u64> = DualHashMap::new();
    m.insert(1, 10, 1);
    m.insert(2, 10, 2);
    m.insert(3, 20, 3);
    let mut k1s = m.get_keys1();
    k1s.sort();
    assert_eq!(k1s, vec![1, 2, 3]);
    let mut k2s = m.get_keys2();
    k2s.sort();
    assert_eq!(k2s, vec![10, 20]);
}

#[test]
fn test_get_values() {
    let mut m: DualHashMap<u64> = DualHashMap::new();
    m.insert(1, 10, 100);
    m.insert(2, 20, 200);
    let mut vs: Vec<u64> = m.get_values().into_iter().copied().collect();
    vs.sort();
    assert_eq!(vs, vec![100, 200]);
}

#[test]
fn test_get_mut_by_k1() {
    let mut m: DualHashMap<u64> = DualHashMap::new();
    m.insert(1, 10, 100);
    let found = m.get_mut_by_k1(&1, |v| v + 1);
    assert!(found);
    assert_eq!(m.get_by_k1(&1), Some(&101));
    let missing = m.get_mut_by_k1(&2, |v| v + 1);
    assert!(!missing);
    assert_eq!(m.len(), 1);
}

#[test]
fn test_for_each_mut_by_k2() {
    let mut m: DualHashMap<u64> = DualHashMap::new();
    m.insert(1, 10, 100);
    m.insert(2, 10, 200);
    m.insert(3, 20, 300);
    m.for_each_mut_by_k2(&10, |v| v + 1);
    assert_eq!(m.get_by_k1(&1), Some(&101));
    assert_eq!(m.get_by_k1(&2), Some(&201));
    assert_eq!(m.get_by_k1(&3), Some(&300));
    m.for_each_mut_by_k2(&99, |v| v + 1);
    assert_eq!(m.get_by_k1(&3), Some(&300));
}

#[test]
fn test_get_values_mut() {
    let mut m: DualHashMap<u64> = DualHashMap::new();
    m.insert(1, 10, 100);
    m.insert(2, 20, 200);
    m.get_values_mut(|v| v * 2);
    assert_eq!(m.get_by_k1(&1), Some(&200));
    assert_eq!(m.get_by_k1(&2), Some(&400));
}

#[test]
fn test_index_consistency_after_mixed_ops() {
    let mut m: DualHashMap<u64> = DualHashMap::new();
    m.insert(1, 10, 1);
    m.insert(2, 10, 2);
    m.insert(3, 20, 3);
    m.insert(1, 20, 4);
    m.remove_by_k1(&2);
    m.insert(4, 30, 5);
    m.remove_by_k2(&20);
    // every bucket member owns a value, buckets are disjoint and non-empty
    let k2s = m.get_keys2();
    let mut seen: Vec<u64> = Vec::new();
    for k2 in &k2s {
        let members = m.get_k1s_by_k2(k2).unwrap();
        assert!(!members.is_empty());
        for k1 in members {
            assert!(m.contains_k1(k1));
            assert!(!seen.contains(k1));
            seen.push(*k1);
        }
    }
    // every stored key is reachable from some bucket
    assert_eq!(seen.len(), m.len());
    assert_eq!(m.len(), 1);
    assert_eq!(m.get_by_k1(&4), Some(&5));
}

#[test]
fn test_default_is_empty() {
    let m: DualHashMap<u64> = Default::default();
    assert!(m.is_empty());
    assert_eq!(m.len(), 0);
}

#[test]
fn test_string_values() {
    let mut m: DualHashMap<String> = DualHashMap::new();
    m.insert(1, 10, String::from("one"));
    m.insert(2, 10, String::from("two"));
    assert_eq!(m.get_by_k1(&1), Some(&String::from("one")));
    m.remove_by_k2(&10);
    assert!(m.is_empty());
}
