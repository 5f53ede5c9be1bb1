use bombadil::coverage::{
    apply_delta, bucket, hash64, merge_max, simhash, weight, EdgeMaps, EDGE_MAP_SIZE,
};

#[test]
fn test_bucket_identity_below_four() {
    assert_eq!(bucket(0), 0);
    assert_eq!(bucket(1), 1);
    assert_eq!(bucket(2), 2);
    assert_eq!(bucket(3), 3);
}

#[test]
fn test_bucket_log_ranges() {
    assert_eq!(bucket(4), 3);
    assert_eq!(bucket(7), 3);
    assert_eq!(bucket(8), 4);
    assert_eq!(bucket(15), 4);
    assert_eq!(bucket(16), 5);
    assert_eq!(bucket(31), 5);
    assert_eq!(bucket(32), 6);
    assert_eq!(bucket(64), 7);
    assert_eq!(bucket(127), 7);
    assert_eq!(bucket(128), 8);
    assert_eq!(bucket(255), 8);
}

#[test]
fn test_capture_produces_delta_and_shifts() {
    let mut maps = EdgeMaps::new();
    maps.current[5] = 1;
    maps.current[100] = 9;
    let delta = maps.capture();
    assert_eq!(delta, vec![(5, 1), (100, 4)]);
    assert_eq!(maps.previous[5], 1);
    assert_eq!(maps.previous[100], 4);
    assert!(maps.current.iter().all(|&b| b == 0));

    // A second, empty capture reports only the cells that fell back to zero.
    let delta2 = maps.capture();
    assert_eq!(delta2, vec![(5, 0), (100, 0)]);
}

#[test]
fn test_delta_round_trip_reconstructs_current() {
    let mut maps = EdgeMaps::new();
    maps.previous[3] = 2;
    maps.previous[9] = 8;
    let before = maps.previous.clone();
    maps.current[3] = 2;
    maps.current[4] = 40;
    let delta = maps.capture();
    let reconstructed = apply_delta(&before, &delta);
    assert_eq!(reconstructed, maps.previous);
}

#[test]
fn test_merge_max_keeps_larger_bucket() {
    let mut global = vec![0u8; EDGE_MAP_SIZE];
    global[7] = 5;
    merge_max(&mut global, &vec![(7, 3), (8, 2)]);
    assert_eq!(global[7], 5);
    assert_eq!(global[8], 2);
    merge_max(&mut global, &vec![(7, 6)]);
    assert_eq!(global[7], 6);
}

#[test]
fn test_weight_rule() {
    assert_eq!(weight(1), 1);
    assert_eq!(weight(2), 1);
    assert_eq!(weight(3), 1);
    assert_eq!(weight(4), 2);
    assert_eq!(weight(7), 2);
    assert_eq!(weight(8), 3);
}

#[test]
fn test_hash64_deterministic() {
    assert_eq!(hash64(0), hash64(0));
    assert_ne!(hash64(0), hash64(1));
}

#[test]
fn test_simhash_empty_map_is_none() {
    let zeros = vec![0u8; EDGE_MAP_SIZE];
    assert_eq!(simhash(&zeros), None);
}

#[test]
fn test_simhash_depends_on_buckets() {
    let mut a = vec![0u8; EDGE_MAP_SIZE];
    a[10] = 2;
    let mut b = vec![0u8; EDGE_MAP_SIZE];
    b[11] = 2;
    let ha = simhash(&a).unwrap();
    assert_eq!(Some(ha), simhash(&a));
    assert_ne!(simhash(&a), simhash(&b));
}
