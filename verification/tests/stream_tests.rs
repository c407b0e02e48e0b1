use redis_lite::streams::{compute_stream_id, xadd, xrange, xread, StreamId};
use redis_lite::parser::RedisValueRef;
use redis_lite::RedisDb;

#[test]
fn test_stream_id_ordering() {
    let id1 = StreamId { ms: 1, seq: 2 };
    let id2 = StreamId { ms: 2, seq: 1 };
    assert!(id1 < id2);

    let id1 = StreamId { ms: 1, seq: 2 };
    let id2 = StreamId { ms: 1, seq: 1 };
    assert!(id1 > id2);

    let id1 = StreamId { ms: 1, seq: 1 };
    let id2 = StreamId { ms: 1, seq: 1 };
    assert!(id1 == id2);
}

#[test]
fn test_stream_id_new() {
    let id1 = StreamId::new(None, None);
    assert!(id1.ms > 1000);
    assert_eq!(id1.seq, 0);

    let id2 = StreamId::new(None, Some(1));
    assert!(id2.ms > 1000);
    assert_eq!(id2.seq, 1);

    let id3 = StreamId::new(Some(1), None);
    assert_eq!(id3.ms, 1);
    assert_eq!(id3.seq, 0);

    let id4 = StreamId::new(Some(1), Some(2));
    assert_eq!(id4.ms, 1);
    assert_eq!(id4.seq, 2);

    let id4 = StreamId::new(Some(0), None);
    assert_eq!(id4.ms, 0);
    assert_eq!(id4.seq, 1);
}

#[test]
fn test_compute_stream_full_auto() {
    let last_id = StreamId { ms: 0, seq: 1 };
    let computed_id = compute_stream_id(None, None, &last_id);
    assert!(computed_id.ms > 1000);
    assert_eq!(computed_id.seq, 0);
}

#[test]
fn test_compute_stream_auto_seq() {
    let last_id = StreamId { ms: 0, seq: 1 };
    let computed_id = compute_stream_id(Some(0), None, &last_id);
    assert_eq!(computed_id.ms, 0);
    assert_eq!(computed_id.seq, 2);
}

#[test]
fn test_compute_stream_no_auto() {
    let last_id = StreamId { ms: 0, seq: 1 };
    let computed_id = compute_stream_id(Some(5), Some(5), &last_id);
    assert_eq!(computed_id.ms, 5);
    assert_eq!(computed_id.seq, 5);
}

fn s(v: &str) -> RedisValueRef {
    RedisValueRef::String(v.as_bytes().to_vec())
}

#[test]
fn test_xadd() {
    let mut db = RedisDb::new();
    let key = b"test_stream".to_vec();
    let fields = vec![
        (b"field1".to_vec(), b"value1".to_vec()),
        (b"field2".to_vec(), b"value2".to_vec()),
    ];

    let result = xadd(&mut db, key.clone(), (Some(1), Some(1)), fields.clone());
    assert_eq!(result, s("1-1"));
}

#[test]
fn test_xadd_auto_seq() {
    let mut db = RedisDb::new();
    let key = b"test_stream".to_vec();
    let fields: Vec<(Vec<u8>, Vec<u8>)> = vec![];

    let result = xadd(&mut db, key.clone(), (Some(1), Some(1)), fields.clone());
    assert_eq!(result, s("1-1"));

    let result = xadd(&mut db, key.clone(), (Some(1), None), fields.clone());
    assert_eq!(result, s("1-2"));
}

#[test]
fn test_xadd_same() {
    let mut db = RedisDb::new();
    let key = b"test_stream".to_vec();
    let fields: Vec<(Vec<u8>, Vec<u8>)> = vec![];

    let result = xadd(&mut db, key.clone(), (Some(1), Some(1)), fields.clone());
    assert_eq!(result, s("1-1"));

    let result = xadd(&mut db, key.clone(), (Some(1), Some(1)), fields.clone());
    assert_eq!(
        result,
        RedisValueRef::Error(
            b"ERR The ID specified in XADD is equal or smaller than the target stream top item"
                .to_vec()
        )
    );
}

#[test]
fn test_xadd_less() {
    let mut db = RedisDb::new();
    let key = b"test_stream".to_vec();
    let fields: Vec<(Vec<u8>, Vec<u8>)> = vec![];

    let result = xadd(&mut db, key.clone(), (Some(2), Some(2)), fields.clone());
    assert_eq!(result, s("2-2"));

    let result = xadd(&mut db, key.clone(), (Some(1), Some(3)), fields.clone());
    assert_eq!(
        result,
        RedisValueRef::Error(
            b"ERR The ID specified in XADD is equal or smaller than the target stream top item"
                .to_vec()
        )
    );

    let result = xadd(&mut db, key.clone(), (Some(2), Some(1)), fields.clone());
    assert_eq!(
        result,
        RedisValueRef::Error(
            b"ERR The ID specified in XADD is equal or smaller than the target stream top item"
                .to_vec()
        )
    );
}

#[test]
fn test_xadd_zero_zero() {
    let mut db = RedisDb::new();
    let result = xadd(&mut db, b"k".to_vec(), (Some(0), Some(0)), vec![]);
    assert_eq!(
        result,
        RedisValueRef::Error(b"ERR The ID specified in XADD must be greater than 0-0".to_vec())
    );
}

#[test]
fn test_xrange() {
    let mut db = RedisDb::new();
    let key = b"test_stream".to_vec();
    let entries = vec![
        (
            (Some(1), Some(0)),
            vec![
                (b"1-0-field1".to_vec(), b"1-0value1".to_vec()),
                (b"1-0-field2".to_vec(), b"1-0value2".to_vec()),
            ],
        ),
        (
            (Some(2), Some(0)),
            vec![
                (b"2-0-field1".to_vec(), b"2-0value1".to_vec()),
                (b"2-0-field2".to_vec(), b"2-0value2".to_vec()),
            ],
        ),
        (
            (Some(2), Some(2)),
            vec![
                (b"2-2-field1".to_vec(), b"2-2value1".to_vec()),
                (b"2-2-field2".to_vec(), b"2-2value2".to_vec()),
            ],
        ),
    ];
    for e in entries {
        xadd(&mut db, key.clone(), e.0, e.1);
    }

    let one_zero = RedisValueRef::Array(vec![
        s("1-0"),
        RedisValueRef::Array(vec![
            s("1-0-field1"),
            s("1-0value1"),
            s("1-0-field2"),
            s("1-0value2"),
        ]),
    ]);
    let two_zero = RedisValueRef::Array(vec![
        s("2-0"),
        RedisValueRef::Array(vec![
            s("2-0-field1"),
            s("2-0value1"),
            s("2-0-field2"),
            s("2-0value2"),
        ]),
    ]);
    let two_two = RedisValueRef::Array(vec![
        s("2-2"),
        RedisValueRef::Array(vec![
            s("2-2-field1"),
            s("2-2value1"),
            s("2-2-field2"),
            s("2-2value2"),
        ]),
    ]);

    let result = xrange(&db, b"test_stream", (Some(0), Some(0)), (Some(2), Some(2)));
    assert_eq!(
        result,
        RedisValueRef::Array(vec![dup(&one_zero), dup(&two_zero), dup(&two_two)])
    );

    let result = xrange(&db, b"test_stream", (Some(0), Some(0)), (Some(2), Some(1)));
    assert_eq!(
        result,
        RedisValueRef::Array(vec![dup(&one_zero), dup(&two_zero)])
    );

    let result = xrange(&db, b"test_stream", (None, None), (None, None));
    assert_eq!(
        result,
        RedisValueRef::Array(vec![one_zero, two_zero, two_two])
    );
}

fn dup(v: &RedisValueRef) -> RedisValueRef {
    {
        match v {
            RedisValueRef::String(b) => RedisValueRef::String(b.clone()),
            RedisValueRef::Array(items) => {
                RedisValueRef::Array(items.iter().map(dup).collect())
            }
            RedisValueRef::Int(i) => RedisValueRef::Int(*i),
            RedisValueRef::SimpleString(b) => RedisValueRef::SimpleString(b.clone()),
            RedisValueRef::Error(b) => RedisValueRef::Error(b.clone()),
            RedisValueRef::NullArray => RedisValueRef::NullArray,
            RedisValueRef::NullBulkString => RedisValueRef::NullBulkString,
            RedisValueRef::RDBFile(b) => RedisValueRef::RDBFile(b.clone()),
            RedisValueRef::MultiValue(items) => {
                RedisValueRef::MultiValue(items.iter().map(dup).collect())
            }
            RedisValueRef::ErrorMsg(b) => RedisValueRef::ErrorMsg(b.clone()),
        }
    }
}

#[test]
fn test_xread() {
    let mut db = RedisDb::new();
    let key1 = b"test_stream".to_vec();
    for e in [
        (Some(1), Some(0), "1-1-0"),
        (Some(2), Some(0), "1-2-0"),
        (Some(2), Some(2), "1-2-2"),
    ] {
        xadd(
            &mut db,
            key1.clone(),
            (e.0, e.1),
            vec![
                (format!("{}-field1", e.2).into_bytes(), format!("{}value1", e.2).into_bytes()),
                (format!("{}-field2", e.2).into_bytes(), format!("{}value2", e.2).into_bytes()),
            ],
        );
    }
    let key2 = b"test_stream2".to_vec();
    for e in [
        (Some(1), Some(0), "2-1-0"),
        (Some(2), Some(0), "2-2-0"),
        (Some(2), Some(2), "2-2-2"),
    ] {
        xadd(
            &mut db,
            key2.clone(),
            (e.0, e.1),
            vec![
                (format!("{}-field1", e.2).into_bytes(), format!("{}value1", e.2).into_bytes()),
                (format!("{}-field2", e.2).into_bytes(), format!("{}value2", e.2).into_bytes()),
            ],
        );
    }

    let result = xread(
        &db,
        vec![
            (key1.clone(), (Some(0), Some(0))),
            (key2.clone(), (Some(0), Some(0))),
        ],
    );
    let entry = |id: &str, p: &str| {
        RedisValueRef::Array(vec![
            s(id),
            RedisValueRef::Array(vec![
                s(&format!("{}-field1", p)),
                s(&format!("{}value1", p)),
                s(&format!("{}-field2", p)),
                s(&format!("{}value2", p)),
            ]),
        ])
    };
    assert_eq!(
        result,
        RedisValueRef::Array(vec![
            RedisValueRef::Array(vec![
                RedisValueRef::String(key1),
                RedisValueRef::Array(vec![
                    entry("1-0", "1-1-0"),
                    entry("2-0", "1-2-0"),
                    entry("2-2", "1-2-2"),
                ]),
            ]),
            RedisValueRef::Array(vec![
                RedisValueRef::String(key2),
                RedisValueRef::Array(vec![
                    entry("1-0", "2-1-0"),
                    entry("2-0", "2-2-0"),
                    entry("2-2", "2-2-2"),
                ]),
            ]),
        ])
    );
}

#[test]
fn test_stream_notification_payload() {
    let id = StreamId { ms: 7, seq: 3 };
    let fields = vec![(b"f".to_vec(), b"v".to_vec())];
    let n = redis_lite::streams::stream_notification(b"q", id, &fields);
    assert_eq!(
        n,
        RedisValueRef::Array(vec![
            s("q"),
            RedisValueRef::Array(vec![RedisValueRef::Array(vec![
                s("7-3"),
                RedisValueRef::Array(vec![s("f"), s("v")]),
            ])]),
        ])
    );
}

#[test]
fn test_stream_waiter_queue_drain() {
    let mut db = RedisDb::new();
    redis_lite::streams::register_stream_waiter(&mut db, b"s", 7);
    redis_lite::streams::register_stream_waiter(&mut db, b"s", 8);
    let drained = redis_lite::streams::drain_stream_waiters(&mut db, b"s");
    assert_eq!(drained, vec![7, 8]);
    let drained = redis_lite::streams::drain_stream_waiters(&mut db, b"s");
    assert_eq!(drained, Vec::<u64>::new());
}

#[test]
fn test_xread_only_future_entries() {
    let mut db = RedisDb::new();
    xadd(&mut db, b"s".to_vec(), (Some(1), Some(1)), vec![]);
    // the largest identifier asks for future entries only: nothing now
    let r = xread(&db, vec![(b"s".to_vec(), (Some(u64::MAX), Some(u64::MAX)))]);
    assert_eq!(r, RedisValueRef::Array(vec![]));
    // a missing stream fails the read
    let r = xread(&db, vec![(b"missing".to_vec(), (Some(0), Some(0)))]);
    assert_eq!(r, RedisValueRef::Error(b"ERR Key does not exist".to_vec()));
}

#[test]
fn test_xread_strictly_greater() {
    let mut db = RedisDb::new();
    xadd(&mut db, b"s".to_vec(), (Some(5), Some(0)), vec![(b"f".to_vec(), b"v".to_vec())]);
    // reading from the committed identifier itself yields nothing new
    let r = xread(&db, vec![(b"s".to_vec(), (Some(5), Some(0)))]);
    assert_eq!(r, RedisValueRef::Array(vec![]));
    // reading from just below it yields the entry
    let r = xread(&db, vec![(b"s".to_vec(), (Some(4), Some(0)))]);
    match r {
        RedisValueRef::Array(items) => assert_eq!(items.len(), 1),
        _ => panic!("expected results"),
    }
}
