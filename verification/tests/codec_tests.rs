use redis_lite::parser::{RespParser, RedisValueRef};
use redis_lite::replication::compute_redis_value_size;

#[test]
fn test_decode_ping() {
    let mut parser = RespParser;
    let decoded = RedisValueRef::Array(vec![RedisValueRef::String(b"PING".to_vec())]);
    let mut out: Vec<u8> = Vec::new();
    parser.encode(decoded, &mut out);
    assert_eq!(out, b"*1\r\n$4\r\nPING\r\n".to_vec());
}

#[test]
fn test_decode_echo_hey() {
    let mut encoded = b"*2\r\n$4\r\nECHO\r\n$3\r\nhey\r\n".to_vec();
    let mut parser = RespParser;
    let result = parser.decode(&mut encoded).unwrap();

    let expected = Some(RedisValueRef::Array(vec![
        RedisValueRef::String(b"ECHO".to_vec()),
        RedisValueRef::String(b"hey".to_vec()),
    ]));

    assert_eq!(result, expected);
}

#[test]
fn test_encode_echo_hey() {
    let mut parser = RespParser;
    let decoded = RedisValueRef::Array(vec![
        RedisValueRef::String(b"ECHO".to_vec()),
        RedisValueRef::String(b"hey".to_vec()),
    ]);
    let mut out: Vec<u8> = Vec::new();
    parser.encode(decoded, &mut out);
    assert_eq!(out, b"*2\r\n$4\r\nECHO\r\n$3\r\nhey\r\n".to_vec());
}

#[test]
fn test_round_trip_nested() {
    let v = RedisValueRef::Array(vec![
        RedisValueRef::Int(-42),
        RedisValueRef::NullBulkString,
        RedisValueRef::Array(vec![RedisValueRef::String(b"a\r\nb".to_vec())]),
        RedisValueRef::Error(b"ERR nope".to_vec()),
        RedisValueRef::NullArray,
    ]);
    let expect = RedisValueRef::Array(vec![
        RedisValueRef::Int(-42),
        RedisValueRef::NullBulkString,
        RedisValueRef::Array(vec![RedisValueRef::String(b"a\r\nb".to_vec())]),
        RedisValueRef::Error(b"ERR nope".to_vec()),
        RedisValueRef::NullArray,
    ]);
    let mut parser = RespParser;
    let mut wire: Vec<u8> = Vec::new();
    parser.encode(v, &mut wire);
    let back = parser.decode(&mut wire).unwrap().unwrap();
    assert_eq!(back, expect);
    assert!(wire.is_empty());
}

#[test]
fn test_decode_partial_frame() {
    let mut parser = RespParser;
    let mut buf = b"$5\r\nhel".to_vec();
    let r = parser.decode(&mut buf).unwrap();
    assert!(r.is_none());
    assert_eq!(buf, b"$5\r\nhel".to_vec());
}

#[test]
fn test_decode_bad_leading_byte() {
    let mut parser = RespParser;
    let mut buf = b"!oops\r\n".to_vec();
    let r = parser.decode(&mut buf);
    assert!(matches!(r, Err(redis_lite::parser::RESPError::UnknownStartingByte)));
}

#[test]
fn test_decode_bad_bulk_size() {
    let mut parser = RespParser;
    let mut buf = b"$-2\r\n".to_vec();
    let r = parser.decode(&mut buf);
    assert!(matches!(
        r,
        Err(redis_lite::parser::RESPError::BadBulkStringSize(-2))
    ));
}

#[test]
fn test_decode_int_parse_failure() {
    let mut parser = RespParser;
    let mut buf = b":12a\r\n".to_vec();
    let r = parser.decode(&mut buf);
    assert!(matches!(r, Err(redis_lite::parser::RESPError::IntParseFailure)));
}

#[test]
fn test_encode_rdb_frame_has_no_trailing_break() {
    let mut parser = RespParser;
    let mut out: Vec<u8> = Vec::new();
    parser.encode(RedisValueRef::RDBFile(b"REDISxyz".to_vec()), &mut out);
    assert_eq!(out, b"$8\r\nREDISxyz".to_vec());
}

#[test]
fn test_expect_string_helper() {
    let value = RedisValueRef::String(b"hello".to_vec());
    let result = value.expect_string();
    assert!(result.is_ok());
    assert_eq!(result.unwrap(), b"hello".to_vec());

    let value = RedisValueRef::Int(42);
    let result = value.expect_string();
    assert!(result.is_err());
    match result {
        Err(RedisValueRef::Error(_)) => {}
        _ => panic!("Expected error response"),
    }
}

#[test]
fn test_compute_redis_value_size() {
    assert_eq!(
        compute_redis_value_size(&RedisValueRef::String(b"hello".to_vec())),
        11
    );
    assert_eq!(
        compute_redis_value_size(&RedisValueRef::SimpleString(b"hello".to_vec())),
        8
    );
    assert_eq!(compute_redis_value_size(&RedisValueRef::Int(42)), 5);
    assert_eq!(
        compute_redis_value_size(&RedisValueRef::Array(vec![
            RedisValueRef::String(b"hello".to_vec()),
            RedisValueRef::Int(42)
        ])),
        20
    );
    assert_eq!(compute_redis_value_size(&RedisValueRef::NullArray), 5);
    assert_eq!(compute_redis_value_size(&RedisValueRef::NullBulkString), 5);
}

#[test]
fn test_size_matches_encoding() {
    let build = || {
        RedisValueRef::Array(vec![
            RedisValueRef::String(b"SET".to_vec()),
            RedisValueRef::String(b"k".to_vec()),
            RedisValueRef::Int(1234),
        ])
    };
    let n = compute_redis_value_size(&build());
    let mut parser = RespParser;
    let mut wire: Vec<u8> = Vec::new();
    parser.encode(build(), &mut wire);
    assert_eq!(n, wire.len());
}

#[test]
fn test_empty_array_round_trip() {
    let mut parser = RespParser;
    let mut wire: Vec<u8> = Vec::new();
    parser.encode(RedisValueRef::Array(vec![]), &mut wire);
    assert_eq!(wire, b"*0\r\n".to_vec());
    let back = parser.decode(&mut wire).unwrap().unwrap();
    assert_eq!(back, RedisValueRef::Array(vec![]));
}
