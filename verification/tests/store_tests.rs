use redis_lite::lists::{
    llen, lpop, lpush, lrange, notify_waiters, register_waiter, rpush, rpush_at,
};
use redis_lite::RedisValue;
use redis_lite::parser::RedisValueRef;
use redis_lite::{get, get_at, set_ex, set_ex_at, RedisDb};

fn s(v: &str) -> RedisValueRef {
    RedisValueRef::String(v.as_bytes().to_vec())
}

#[test]
fn test_set_get() {
    let mut db = RedisDb::new();
    let result = redis_lite::set(&mut db, b"key".to_vec(), b"value".to_vec());
    assert_eq!(result, RedisValueRef::SimpleString(b"OK".to_vec()));

    let result = get(&mut db, b"key");
    assert_eq!(result, RedisValueRef::String(b"value".to_vec()));
}

#[test]
fn test_get_set_expired() {
    let mut db = RedisDb::new();
    let result = set_ex_at(&mut db, b"key".to_vec(), b"value".to_vec(), 1, 1000);
    assert_eq!(result, RedisValueRef::SimpleString(b"OK".to_vec()));
    let result = get_at(&mut db, b"key", 1010);
    assert_eq!(result, RedisValueRef::NullBulkString);
}

#[test]
fn test_get_set_not_expired() {
    let mut db = RedisDb::new();
    let result = set_ex(&mut db, b"key".to_vec(), b"value".to_vec(), 1000000);
    assert_eq!(result, RedisValueRef::SimpleString(b"OK".to_vec()));

    let result = get(&mut db, b"key");
    assert_eq!(result, RedisValueRef::String(b"value".to_vec()));
}

#[test]
fn test_rpush_new_list() {
    let mut db = RedisDb::new();
    let result = rpush(&mut db, b"key".to_vec(), vec![b"value1".to_vec()]);
    assert_eq!(result, RedisValueRef::Int(1));

    let result = rpush(&mut db, b"key".to_vec(), vec![b"value2".to_vec()]);
    assert_eq!(result, RedisValueRef::Int(2));

    // a plain read of a list key is a typed error; the range shows the list
    let result = get(&mut db, b"key");
    match result {
        RedisValueRef::Error(msg) => assert!(msg.starts_with(b"WRONGTYPE")),
        _ => panic!("Expected wrong-kind error"),
    }
    let result = lrange(&db, b"key", 0, -1);
    assert_eq!(
        result,
        RedisValueRef::Array(vec![s("value1"), s("value2")])
    );
}

#[test]
fn test_rpush_wrong_type() {
    let mut db = RedisDb::new();
    let result = redis_lite::set(&mut db, b"key".to_vec(), b"string_value".to_vec());
    assert_eq!(result, RedisValueRef::SimpleString(b"OK".to_vec()));

    let result = rpush(&mut db, b"key".to_vec(), vec![b"list_item".to_vec()]);
    match result {
        RedisValueRef::Error(_) => {}
        _ => panic!("Expected error when rpush on string key"),
    }
}

#[test]
fn test_rpush_multiple() {
    let mut db = RedisDb::new();
    let result = rpush(
        &mut db,
        b"key".to_vec(),
        vec![b"value1".to_vec(), b"value2".to_vec()],
    );
    assert_eq!(result, RedisValueRef::Int(2));

    let result = get(&mut db, b"key");
    match result {
        RedisValueRef::Error(msg) => assert!(msg.starts_with(b"WRONGTYPE")),
        _ => panic!("Expected wrong-kind error"),
    }
    let result = lrange(&db, b"key", 0, -1);
    assert_eq!(
        result,
        RedisValueRef::Array(vec![s("value1"), s("value2")])
    );
}

#[test]
fn test_lpush() {
    let mut db = RedisDb::new();
    let result = lpush(&mut db, b"key".to_vec(), vec![b"c".to_vec()]);
    assert_eq!(result, RedisValueRef::Int(1));

    let result = lpush(&mut db, b"key".to_vec(), vec![b"b".to_vec(), b"a".to_vec()]);
    assert_eq!(result, RedisValueRef::Int(3));

    let result = lrange(&db, b"key", 0, -1);
    assert_eq!(result, RedisValueRef::Array(vec![s("a"), s("b"), s("c")]));
}

#[test]
fn test_lrange() {
    let mut db = RedisDb::new();
    let result = rpush(
        &mut db,
        b"key".to_vec(),
        vec![b"value1".to_vec(), b"value2".to_vec(), b"value3".to_vec()],
    );
    assert_eq!(result, RedisValueRef::Int(3));

    let result = lrange(&db, b"key", 0, 1);
    assert_eq!(
        result,
        RedisValueRef::Array(vec![s("value1"), s("value2")])
    );
}

#[test]
fn test_lrange_large_upper() {
    let mut db = RedisDb::new();
    let result = rpush(
        &mut db,
        b"key".to_vec(),
        vec![b"value1".to_vec(), b"value2".to_vec(), b"value3".to_vec()],
    );
    assert_eq!(result, RedisValueRef::Int(3));

    let result = lrange(&db, b"key", 0, 10);
    assert_eq!(
        result,
        RedisValueRef::Array(vec![s("value1"), s("value2"), s("value3")])
    );
}

#[test]
fn test_lrange_negative() {
    let mut db = RedisDb::new();
    let result = rpush(
        &mut db,
        b"key".to_vec(),
        vec![
            b"a".to_vec(),
            b"b".to_vec(),
            b"c".to_vec(),
            b"d".to_vec(),
            b"e".to_vec(),
        ],
    );
    assert_eq!(result, RedisValueRef::Int(5));

    let result = lrange(&db, b"key", 2, -1);
    assert_eq!(result, RedisValueRef::Array(vec![s("c"), s("d"), s("e")]));
}

#[test]
fn test_llen() {
    let mut db = RedisDb::new();
    let result = rpush(
        &mut db,
        b"key".to_vec(),
        vec![b"a".to_vec(), b"b".to_vec(), b"c".to_vec(), b"d".to_vec()],
    );
    assert_eq!(result, RedisValueRef::Int(4));

    let result = llen(&db, b"key");
    assert_eq!(result, RedisValueRef::Int(4));

    let result = llen(&db, b"nonexistent");
    assert_eq!(result, RedisValueRef::Int(0));
}

#[test]
fn test_llen_wrong_type() {
    let mut db = RedisDb::new();
    redis_lite::set(&mut db, b"key".to_vec(), b"v".to_vec());
    let result = llen(&db, b"key");
    match result {
        RedisValueRef::Error(msg) => assert!(msg.starts_with(b"WRONGTYPE")),
        _ => panic!("Expected wrong-kind error"),
    }
}

#[test]
fn test_lpop() {
    let mut db = RedisDb::new();
    let result = rpush(&mut db, b"key".to_vec(), vec![b"a".to_vec()]);
    assert_eq!(result, RedisValueRef::Int(1));

    let result = lpop(&mut db, b"key", None);
    assert_eq!(result, RedisValueRef::String(b"a".to_vec()));

    let result = lpop(&mut db, b"key", None);
    assert_eq!(result, RedisValueRef::NullBulkString);

    let result = lpop(&mut db, b"nonexistent", None);
    assert_eq!(result, RedisValueRef::NullBulkString);
}

#[test]
fn test_lpop_multiple() {
    let mut db = RedisDb::new();
    let result = rpush(
        &mut db,
        b"key".to_vec(),
        vec![b"a".to_vec(), b"b".to_vec(), b"c".to_vec(), b"d".to_vec()],
    );
    assert_eq!(result, RedisValueRef::Int(4));

    let result = lpop(&mut db, b"key", Some(2));
    assert_eq!(result, RedisValueRef::Array(vec![s("a"), s("b")]));

    let result = lrange(&db, b"key", 0, -1);
    assert_eq!(result, RedisValueRef::Array(vec![s("c"), s("d")]));

    let result = lpop(&mut db, b"key", Some(100));
    assert_eq!(result, RedisValueRef::Array(vec![s("c"), s("d")]));
}

#[test]
fn test_redis_value_trait_conversions() {

    let stored_string = RedisValue::String(b"hello".to_vec());
    let protocol = stored_string.to_ref();
    assert_eq!(protocol, RedisValueRef::String(b"hello".to_vec()));

    let stored_list = RedisValue::List(vec![b"a".to_vec(), b"b".to_vec()]);
    let protocol = stored_list.to_ref();
    match protocol {
        RedisValueRef::Array(items) => assert_eq!(items.len(), 2),
        _ => panic!("Expected array"),
    }

    let protocol_string = RedisValueRef::String(b"world".to_vec());
    let stored = RedisValue::try_from_ref(protocol_string);
    assert!(stored.is_ok());
    assert_eq!(stored.unwrap(), RedisValue::String(b"world".to_vec()));

    let protocol_error = RedisValueRef::Error(b"ERR".to_vec());
    let stored = RedisValue::try_from_ref(protocol_error);
    assert!(stored.is_err());
}

#[test]
fn test_waiter_matching_fifo() {
    let mut db = RedisDb::new();
    register_waiter(&mut db, b"q", 11);
    register_waiter(&mut db, b"q", 22);
    register_waiter(&mut db, b"q", 33);
    rpush(&mut db, b"q".to_vec(), vec![b"one".to_vec(), b"two".to_vec()]);
    let closed: Vec<u64> = Vec::new();
    let handed = notify_waiters(&mut db, b"q", &closed);
    assert_eq!(
        handed,
        vec![(11u64, b"one".to_vec()), (22u64, b"two".to_vec())]
    );
    // the list emptied, the unserved waiter stays parked
    let result = llen(&db, b"q");
    assert_eq!(result, RedisValueRef::Int(0));
}

#[test]
fn test_waiter_matching_skips_closed() {
    let mut db = RedisDb::new();
    register_waiter(&mut db, b"q", 11);
    register_waiter(&mut db, b"q", 22);
    rpush(&mut db, b"q".to_vec(), vec![b"one".to_vec()]);
    let closed: Vec<u64> = vec![11];
    let handed = notify_waiters(&mut db, b"q", &closed);
    assert_eq!(handed, vec![(22u64, b"one".to_vec())]);
}

#[test]
fn test_blpop_immediate_value() {
    let mut db = RedisDb::new();
    rpush(&mut db, b"q".to_vec(), vec![b"hello".to_vec()]);
    let r = redis_lite::lists::blpop_immediate(&mut db, b"q", 0);
    assert_eq!(
        r,
        Some(RedisValueRef::Array(vec![s("q"), s("hello")]))
    );
    let r = redis_lite::lists::blpop_immediate(&mut db, b"q", 0);
    assert!(r.is_none());
}

#[test]
fn test_set_rebinds_existing_key() {
    let mut db = RedisDb::new();
    redis_lite::set(&mut db, b"k".to_vec(), b"one".to_vec());
    redis_lite::set(&mut db, b"k".to_vec(), b"two".to_vec());
    let r = get(&mut db, b"k");
    assert_eq!(r, RedisValueRef::String(b"two".to_vec()));
}

#[test]
fn test_lpop_single_via_count() {
    let mut db = RedisDb::new();
    rpush(&mut db, b"k".to_vec(), vec![b"a".to_vec(), b"b".to_vec()]);
    // a given count always pops as an array, even of one
    let r = lpop(&mut db, b"k", Some(1));
    assert_eq!(r, RedisValueRef::Array(vec![s("a")]));
}

#[test]
fn test_lrange_start_past_length() {
    let mut db = RedisDb::new();
    rpush(
        &mut db,
        b"k".to_vec(),
        vec![b"a".to_vec(), b"b".to_vec(), b"c".to_vec()],
    );
    // a start at or past the length selects nothing
    let r = lrange(&db, b"k", 5, 10);
    assert_eq!(r, RedisValueRef::Array(vec![]));
    let r = lrange(&db, b"k", 3, 10);
    assert_eq!(r, RedisValueRef::Array(vec![]));
    // a stop before the first element selects nothing
    let r = lrange(&db, b"k", 0, -20);
    assert_eq!(r, RedisValueRef::Array(vec![]));
}

#[test]
fn test_push_expires_stale_key() {
    let mut db = RedisDb::new();
    set_ex_at(&mut db, b"k".to_vec(), b"old".to_vec(), 10, 1000);
    // past the deadline, the push lands on a fresh list
    let r = rpush_at(&mut db, b"k".to_vec(), vec![b"x".to_vec()], 2000);
    assert_eq!(r, RedisValueRef::Int(1));
    let r = lrange(&db, b"k", 0, -1);
    assert_eq!(r, RedisValueRef::Array(vec![s("x")]));
}

#[test]
fn test_config_get() {
    let mut db = RedisDb::new();
    db.dir = b"/tmp/files".to_vec();
    db.dbfilename = b"dump.rdb".to_vec();
    let r = redis_lite::config_get(&db, b"dir");
    assert_eq!(
        r,
        RedisValueRef::Array(vec![s("dir"), s("/tmp/files")])
    );
    let r = redis_lite::config_get(&db, b"dbfilename");
    assert_eq!(
        r,
        RedisValueRef::Array(vec![s("dbfilename"), s("dump.rdb")])
    );
    let r = redis_lite::config_get(&db, b"other");
    assert_eq!(r, RedisValueRef::Array(vec![]));
}
