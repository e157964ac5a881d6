use bloom_filter::{optimal_hash_functions, BloomError, BloomFilter, BloomHasher, Murmur3};

fn words(n: usize) -> Vec<Vec<u8>> {
    (0..n).map(|i| format!("word-{}-{}", i, i * 7919).into_bytes()).collect()
}

fn float_vec_size(n: u64, p: f64) -> u64 {
    (-(n as f64 * p.ln()) / std::f64::consts::LN_2.powi(2)).ceil() as u64
}

#[test]
fn test_optimal_hash_functions() {
    assert_eq!(1, optimal_hash_functions(1, 10));
    assert_eq!(7, optimal_hash_functions(95851, 10000));
    assert_eq!(7, optimal_hash_functions(9586, 1000));
    assert_eq!(7, optimal_hash_functions(90000, 10000));
}

#[test]
fn hash_count_floor_and_bounds() {
    assert_eq!(1, optimal_hash_functions(0, 5));
    assert_eq!(1, optimal_hash_functions(5, 0));
    assert_eq!(1, optimal_hash_functions(1, u64::MAX));
    assert_eq!(u32::MAX, optimal_hash_functions(u64::MAX, 1));
    // 14426 * ln 2 lies just below 10000 and 14428 * ln 2 just above it
    assert_eq!(2, optimal_hash_functions(14428, 10000));
    assert_eq!(1, optimal_hash_functions(14426, 10000));
}

#[test]
fn hash_count_matches_float_formula() {
    for &(m, n) in &[(95851u64, 10000u64), (9586, 1000), (1000, 3), (123456, 789), (10, 10)] {
        let expected = 1_f64.max(m as f64 / n as f64 * std::f64::consts::LN_2).ceil() as u32;
        assert_eq!(expected, optimal_hash_functions(m, n));
    }
}

#[test]
fn optimal_derives_parameters() {
    let f = BloomFilter::optimal(Murmur3, 10000, 95851).unwrap();
    assert_eq!(f.hash_count(), 7);
    assert_eq!(f.bit_len(), 95851);
    assert_eq!(f.insert_count(), 0);
    let g = BloomFilter::optimal(Murmur3, 1000, 9586).unwrap();
    assert_eq!(g.hash_count(), 7);
    assert_eq!(g.bit_len(), 9586);
}

#[test]
fn optimal_rejects_zero_elements() {
    assert!(matches!(BloomFilter::optimal(Murmur3, 0, 100), Err(BloomError::ZeroElements)));
    assert!(matches!(BloomFilter::optimal(Murmur3, 0, 0), Err(BloomError::ZeroElements)));
}

#[test]
fn optimal_rejects_zero_size() {
    assert!(matches!(BloomFilter::optimal(Murmur3, 10, 0), Err(BloomError::ZeroSize)));
}

#[test]
fn no_false_negatives_thousand_words() {
    let items = words(1000);
    let m = float_vec_size(items.len() as u64, 0.01);
    assert_eq!(m, 9586);
    let mut f = BloomFilter::optimal(Murmur3, items.len() as u64, m).unwrap();
    f.insert_all(&items);
    for w in items.iter() {
        assert!(f.contains(w));
    }
    assert_eq!(f.insert_count(), 1000);
}

#[test]
fn empty_filter_contains_nothing() {
    let f = BloomFilter::new(Murmur3, 3, 128);
    assert!(!f.contains(b"anything"));
    assert!(!f.contains(b""));
}

#[test]
fn insert_then_contains() {
    let mut f = BloomFilter::new(Murmur3, 4, 1);
    f.insert(b"x");
    assert!(f.contains(b"x"));
    // a single bit: every query now hits it
    assert!(f.contains(b"never inserted"));
}

#[test]
fn duplicates_count_as_inserts() {
    let mut f = BloomFilter::new(Murmur3, 3, 1000);
    f.insert(b"same");
    f.insert(b"same");
    assert_eq!(f.insert_count(), 2);
    f.insert_all(&[b"same".to_vec(), b"other".to_vec()]);
    assert_eq!(f.insert_count(), 4);
}

#[test]
fn size_and_rounds_never_change() {
    let mut f = BloomFilter::new(Murmur3, 5, 333);
    for w in words(500).iter() {
        f.insert(w);
        assert_eq!(f.bit_len(), 333);
        assert_eq!(f.hash_count(), 5);
    }
}

#[test]
fn insertion_order_does_not_matter() {
    let items = words(50);
    let mut reversed = items.clone();
    reversed.reverse();
    let mut a = BloomFilter::new(Murmur3, 3, 200);
    let mut b = BloomFilter::new(Murmur3, 3, 200);
    a.insert_all(&items);
    b.insert_all(&reversed);
    for probe in words(400).iter() {
        assert_eq!(a.contains(probe), b.contains(probe));
    }
}

#[test]
fn murmur3_known_values() {
    assert_eq!(Murmur3.hash(0, b""), 0);
    assert_eq!(Murmur3.hash(1, b""), 0x514e_28b7);
    assert_eq!(Murmur3.hash(0, b"hello"), 0x248b_fa47);
    assert_ne!(Murmur3.hash(0, b"hello"), Murmur3.hash(1, b"hello"));
}
