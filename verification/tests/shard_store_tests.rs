use crabcache::protocol::commands::{Command, Response};
use crabcache::shard::shard::Shard;
use crabcache::store::hashmap::ShardStore;
use crabcache::store::item::{Item, ItemDecodeError};

#[test]
fn item_layout_roundtrip() {
    let item = Item { key: b"k".to_vec(), value: b"vv".to_vec(), expires_at: Some(258), flags: 7 };
    let bytes = item.to_binary();
    assert_eq!(bytes, vec![1, b'k', 2, b'v', b'v', 2, 1, 0, 0, 0, 0, 0, 0, 7]);
    assert_eq!(item.binary_size(), bytes.len());
    assert_eq!(Item::from_binary(&bytes), Ok(item));
    let plain = Item::new(b"a".to_vec(), vec![], None);
    assert_eq!(Item::from_binary(&plain.to_binary()), Ok(plain));
}

#[test]
fn item_layout_errors() {
    assert_eq!(Item::from_binary(&[]), Err(ItemDecodeError::EmptyData));
    assert_eq!(Item::from_binary(&[5, 1]), Err(ItemDecodeError::InsufficientKey));
    assert_eq!(Item::from_binary(&[0, 3]), Err(ItemDecodeError::InsufficientValue));
    assert_eq!(Item::from_binary(&[0, 0, 1, 2]), Err(ItemDecodeError::InsufficientExpiresAt));
    assert_eq!(Item::from_binary(&[0, 0, 0, 0, 0, 0, 0, 0, 0, 0]), Err(ItemDecodeError::InsufficientFlags));
    assert!(matches!(Item::from_binary(&[0x80]), Err(ItemDecodeError::KeyLength(_))));
}

#[test]
fn item_expiry() {
    let item = Item::with_ttl_at(b"k".to_vec(), b"v".to_vec(), 10, 100);
    assert_eq!(item.expires_at, Some(110));
    assert!(!item.is_expired_at(109));
    assert!(item.is_expired_at(110));
    assert!(!Item::new(vec![], vec![], None).is_expired());
    assert!(!Item::with_ttl(vec![], vec![], 1000).is_expired());
}

#[test]
fn store_put_get_delete_at_times() {
    let mut store = ShardStore::new(1000);
    assert!(store.put_at(b"a".to_vec(), b"1".to_vec(), None, 0));
    assert!(store.put_at(b"b".to_vec(), b"2".to_vec(), Some(5), 100));
    assert_eq!(store.get_at(b"a", 1_000_000), Some(b"1".to_vec()));
    assert_eq!(store.get_at(b"b", 104), Some(b"2".to_vec()));
    assert_eq!(store.len(), 2);
    // reading after the expiry drops the entry
    assert_eq!(store.get_at(b"b", 105), None);
    assert_eq!(store.len(), 1);
    // sizes: 1 + 1 + 1 + 1 + 8 + 1 = 13 per one-byte key and value
    assert_eq!(store.memory_stats(), (13, 1000, 1));
    assert!(store.del(b"a"));
    assert!(!store.del(b"a"));
    assert_eq!(store.memory_stats(), (0, 1000, 0));
    assert!(store.is_empty());
}

#[test]
fn store_memory_limit_and_replace() {
    let mut store = ShardStore::new(20);
    assert!(store.put_at(b"a".to_vec(), b"1".to_vec(), None, 0));
    // a second key would pass the limit
    assert!(!store.put_at(b"b".to_vec(), b"2".to_vec(), None, 0));
    // replacing the key is allowed
    assert!(store.put_at(b"a".to_vec(), b"123".to_vec(), None, 0));
    assert_eq!(store.memory_stats(), (15, 20, 1));
    assert!(store.expire_at(b"a", 3, 10));
    assert!(!store.expire_at(b"zz", 3, 10));
    assert_eq!(store.cleanup_expired_at(12), 0);
    assert_eq!(store.cleanup_expired_at(13), 1);
    assert!(store.is_empty());
    assert!(store.put(b"x".to_vec(), b"y".to_vec(), None));
    assert_eq!(store.get(b"x"), Some(b"y".to_vec()));
    assert!(store.expire(b"x", 100));
    assert_eq!(store.keys(), vec![b"x".to_vec()]);
    assert_eq!(store.cleanup_expired(), 0);
}

#[test]
fn shard_answers_commands() {
    let mut shard = Shard::new(3, 1000);
    let put = Command::Put { key: b"k".to_vec(), value: b"v".to_vec(), ttl: Some(10) };
    assert_eq!(shard.process_command_at(put, 50), Response::Okay);
    assert_eq!(shard.process_command_at(Command::Get { key: b"k".to_vec() }, 55), Response::Value(b"v".to_vec()));
    assert_eq!(
        shard.process_command_at(Command::Stats, 55),
        Response::Stats("shard_3: 1 keys, 13B/1000B memory, 1 TTL keys in 1 slots".to_string())
    );
    assert_eq!(
        shard.process_command_at(Command::Metrics, 55),
        Response::Stats("shard_3_metrics: keys=1, memory=13B/1000B".to_string())
    );
    assert_eq!(shard.process_command_at(Command::Get { key: b"k".to_vec() }, 60), Response::Null);
    assert_eq!(shard.process_command_at(Command::Del { key: b"k".to_vec() }, 60), Response::Null);
    assert_eq!(shard.process_command_at(Command::Expire { key: b"k".to_vec(), ttl: 1 }, 60), Response::Null);
    assert_eq!(shard.process_command(Command::Ping), Response::Pong);
    let mut tiny = Shard::new(0, 5);
    assert_eq!(
        tiny.process_command(Command::Put { key: b"k".to_vec(), value: b"v".to_vec(), ttl: None }),
        Response::Error("Memory limit exceeded".to_string())
    );
    assert_eq!(shard.get_stats(), (3, 0, 0, 1000));
    assert_eq!(shard.cleanup_expired(), 0);
    shard.ttl_cleanup_step();
}
