use redis_lite::interpreter::RedisInterpreter;
use redis_lite::parser::{RedisValueRef, RespParser};
use redis_lite::{get_at, handle_command, RedisDb};

fn wire(v: RedisValueRef) -> Vec<u8> {
    let mut parser = RespParser;
    let mut out: Vec<u8> = Vec::new();
    parser.encode(v, &mut out);
    out
}

fn run(db: &mut RedisDb, line: &[RedisValueRef]) -> RedisValueRef {
    let interpreter = RedisInterpreter::new();
    let mut items: Vec<RedisValueRef> = Vec::new();
    for v in line {
        match v {
            RedisValueRef::String(b) => items.push(RedisValueRef::String(b.clone())),
            _ => panic!("commands are arrays of bulk strings"),
        }
    }
    let cmd = interpreter
        .interpret(RedisValueRef::Array(items))
        .unwrap();
    handle_command(db, cmd)
}

fn s(v: &str) -> RedisValueRef {
    RedisValueRef::String(v.as_bytes().to_vec())
}

#[test]
fn scenario_set_get_with_px() {
    let mut db = RedisDb::new();
    let r = run(&mut db, &[s("SET"), s("foo"), s("bar"), s("PX"), s("50")]);
    assert_eq!(wire(r), b"+OK\r\n".to_vec());
    // immediately: the value is there
    let r = run(&mut db, &[s("GET"), s("foo")]);
    assert_eq!(wire(r), b"$3\r\nbar\r\n".to_vec());
    // past the deadline: absent
    let now = redis_lite::util::now_millis();
    let r = get_at(&mut db, b"foo", now + 100);
    assert_eq!(wire(r), b"$-1\r\n".to_vec());
}

#[test]
fn scenario_list_push_and_range() {
    let mut db = RedisDb::new();
    let r = run(&mut db, &[s("RPUSH"), s("l"), s("a"), s("b"), s("c")]);
    assert_eq!(wire(r), b":3\r\n".to_vec());
    let r = run(&mut db, &[s("LRANGE"), s("l"), s("0"), s("-1")]);
    assert_eq!(wire(r), b"*3\r\n$1\r\na\r\n$1\r\nb\r\n$1\r\nc\r\n".to_vec());
    let r = redis_lite::lists::lpush(&mut db, b"l".to_vec(), vec![b"z".to_vec(), b"y".to_vec()]);
    assert_eq!(wire(r), b":5\r\n".to_vec());
    let r = run(&mut db, &[s("LRANGE"), s("l"), s("0"), s("0")]);
    assert_eq!(wire(r), b"*1\r\n$1\r\ny\r\n".to_vec());
}

#[test]
fn scenario_stream_monotonicity() {
    let mut db = RedisDb::new();
    let f = vec![(b"f".to_vec(), b"v".to_vec())];
    let r = redis_lite::streams::xadd(&mut db, b"s".to_vec(), (Some(1), Some(1)), f.clone());
    assert_eq!(wire(r), b"$3\r\n1-1\r\n".to_vec());
    let r = redis_lite::streams::xadd(&mut db, b"s".to_vec(), (Some(1), Some(1)), f.clone());
    assert_eq!(
        wire(r),
        b"-ERR The ID specified in XADD is equal or smaller than the target stream top item\r\n"
            .to_vec()
    );
    let r = redis_lite::streams::xadd(&mut db, b"s".to_vec(), (Some(1), None), f);
    assert_eq!(wire(r), b"$3\r\n1-2\r\n".to_vec());
}

#[test]
fn scenario_waiter_wakeup_payload() {
    // a parked reader, one later push: the reader's wakeup carries the key
    // and the pushed value
    let mut db = RedisDb::new();
    redis_lite::lists::register_waiter(&mut db, b"q", 1);
    redis_lite::lists::rpush(&mut db, b"q".to_vec(), vec![b"hello".to_vec()]);
    let closed: Vec<u64> = Vec::new();
    let handed = redis_lite::lists::notify_waiters(&mut db, b"q", &closed);
    assert_eq!(handed.len(), 1);
    let (who, value) = &handed[0];
    assert_eq!(*who, 1);
    let reply = RedisValueRef::Array(vec![s("q"), RedisValueRef::String(value.clone())]);
    assert_eq!(wire(reply), b"*2\r\n$1\r\nq\r\n$5\r\nhello\r\n".to_vec());
}
