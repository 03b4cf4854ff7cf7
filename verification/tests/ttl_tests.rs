use crabcache::ttl::wheel::TTLWheel;

#[test]
fn test_ttl_wheel_basic() {
    let mut wheel = TTLWheel::new(60, 1);
    let key = b"test_key".to_vec();
    wheel.add_key(key.clone(), 5);
    let (total_keys, _) = wheel.stats();
    assert_eq!(total_keys, 1);
    assert!(wheel.remove_key(&key));
    let (total_keys, _) = wheel.stats();
    assert_eq!(total_keys, 0);
}

#[test]
fn test_ttl_wheel_tick() {
    let mut wheel = TTLWheel::new(10, 1);
    let key1 = b"key1".to_vec();
    let key2 = b"key2".to_vec();
    wheel.add_key(key1.clone(), 0);
    wheel.add_key(key2.clone(), 5);
    let expired = wheel.tick();
    assert!(expired.len() <= 2);
}

#[test]
fn ttl_wheel_at_fixed_times() {
    let mut wheel = TTLWheel::new(10, 2);
    // time 100 + 4 = 104 -> slot (104 / 2) % 10 = 2
    wheel.add_key_at(b"a".to_vec(), 4, 100);
    // time 100 + 0 -> slot 0
    wheel.add_key_at(b"b".to_vec(), 0, 100);
    wheel.add_key_at(b"c".to_vec(), 1, 100);
    assert_eq!(wheel.stats(), (3, 2));
    // the current slot is 0: b and c expire
    assert_eq!(wheel.tick(), vec![b"b".to_vec(), b"c".to_vec()]);
    assert_eq!(wheel.stats(), (1, 1));
    assert!(wheel.tick().is_empty());
    assert_eq!(wheel.tick(), vec![b"a".to_vec()]);
    assert_eq!(wheel.stats(), (0, 0));
    assert!(!wheel.remove_key(b"a"));
}

#[test]
fn ttl_wheel_re_adding_moves_the_key() {
    let mut wheel = TTLWheel::new(4, 1);
    wheel.add_key_at(b"k".to_vec(), 1, 0);
    wheel.add_key_at(b"k".to_vec(), 3, 0);
    assert_eq!(wheel.stats(), (1, 1));
    assert!(!wheel.should_expire_at(b"k", 3));
    // slot 3 seen from slot 0 is three slots ahead, more than half the ring
    assert!(wheel.should_expire_at(b"k", 0));
    assert!(!wheel.should_expire_at(b"zz", 0));
    assert_eq!(wheel.slots_between(3, 1), 2);
}
