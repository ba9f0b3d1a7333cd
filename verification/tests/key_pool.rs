use torn_client::{ApiKeyBalancing, Error, KeyPool};

#[test]
fn test_round_robin_single_key() {
    let mut pool = KeyPool::new(vec!["key1".to_string()], ApiKeyBalancing::RoundRobin).unwrap();
    assert_eq!(pool.next_key(), "key1");
    assert_eq!(pool.next_key(), "key1");
    assert_eq!(pool.next_key(), "key1");
}

#[test]
fn test_round_robin_multiple_keys() {
    let mut pool = KeyPool::new(
        vec!["key1".to_string(), "key2".to_string(), "key3".to_string()],
        ApiKeyBalancing::RoundRobin,
    )
    .unwrap();

    // Keys must cycle in insertion order.
    assert_eq!(pool.next_key(), "key1");
    assert_eq!(pool.next_key(), "key2");
    assert_eq!(pool.next_key(), "key3");
    assert_eq!(pool.next_key(), "key1");
    assert_eq!(pool.next_key(), "key2");
    assert_eq!(pool.next_key(), "key3");
}

#[test]
fn test_round_robin_even_distribution() {
    // Over 7 draws from 3 keys every key is drawn 7/3 = 2 or 3 times.
    let mut pool = KeyPool::new(
        vec!["a".to_string(), "b".to_string(), "c".to_string()],
        ApiKeyBalancing::RoundRobin,
    )
    .unwrap();
    let mut counts = [0usize; 3];
    for _ in 0..7 {
        let k = pool.next_key();
        match k.as_str() {
            "a" => counts[0] += 1,
            "b" => counts[1] += 1,
            "c" => counts[2] += 1,
            _ => panic!("unexpected key {}", k),
        }
    }
    for c in counts {
        assert!(c == 2 || c == 3, "count {} outside even share", c);
    }
}

#[test]
fn test_random_selection_returns_valid_keys() {
    let mut pool = KeyPool::new(
        vec!["key1".to_string(), "key2".to_string(), "key3".to_string()],
        ApiKeyBalancing::Random,
    )
    .unwrap();

    for _ in 0..100 {
        let key = pool.next_key();
        assert!(key == "key1" || key == "key2" || key == "key3");
    }
}

#[test]
fn test_random_has_variation() {
    let mut pool = KeyPool::new(
        vec!["key1".to_string(), "key2".to_string(), "key3".to_string()],
        ApiKeyBalancing::Random,
    )
    .unwrap();

    let mut seen: Vec<String> = Vec::new();
    for _ in 0..30 {
        let k = pool.next_key();
        if !seen.contains(&k) {
            seen.push(k);
        }
    }

    assert!(
        seen.len() >= 2,
        "Expected at least 2 different keys in random mode, got {:?}",
        seen
    );
}

#[test]
fn test_empty_keys_error() {
    let result = KeyPool::new(vec![], ApiKeyBalancing::RoundRobin);
    assert!(matches!(result, Err(Error::NoKeys)));
}

#[test]
fn test_len() {
    let pool = KeyPool::new(
        vec!["key1".to_string(), "key2".to_string()],
        ApiKeyBalancing::RoundRobin,
    )
    .unwrap();
    assert_eq!(pool.len(), 2);
}

#[test]
fn test_keys_masked() {
    let pool = KeyPool::new(
        vec![
            "abcdefgh12345".to_string(),
            "xyz".to_string(),
            "12345678".to_string(),
        ],
        ApiKeyBalancing::RoundRobin,
    )
    .unwrap();

    let masked = pool.keys_masked();
    assert_eq!(masked.len(), 3);
    assert_eq!(masked[0], "abcde...");
    assert_eq!(masked[1], "xyz"); // Short keys not masked
    assert_eq!(masked[2], "12345...");
}

#[test]
fn test_get_key() {
    let pool = KeyPool::new(
        vec!["key1".to_string(), "key2".to_string()],
        ApiKeyBalancing::RoundRobin,
    )
    .unwrap();

    assert_eq!(pool.get_key(0), Some("key1"));
    assert_eq!(pool.get_key(1), Some("key2"));
    assert_eq!(pool.get_key(2), None);
}

#[test]
fn test_iter_keys() {
    let pool = KeyPool::new(
        vec!["key1".to_string(), "key2".to_string()],
        ApiKeyBalancing::RoundRobin,
    )
    .unwrap();
    assert_eq!(pool.iter_keys(), vec!["key1".to_string(), "key2".to_string()]);
}

#[test]
fn test_simple_lcg_step() {
    // One LCG step from seed zero is exactly the additive constant.
    assert_eq!(torn_client::key_pool::simple_lcg(0), 1013904223);
    assert_eq!(
        torn_client::key_pool::simple_lcg(1),
        1664525usize.wrapping_add(1013904223)
    );
}
