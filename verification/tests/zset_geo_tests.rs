use redis_lite::parser::RedisValueRef;
use redis_lite::zset::{normalize_index, zadd, zcard, zrange, zrangebyscore, zrank, zscore};
use redis_lite::RedisDb;

fn s(v: &str) -> RedisValueRef {
    RedisValueRef::String(v.as_bytes().to_vec())
}

#[test]
fn test_zadd() {
    let mut db = RedisDb::new();
    let cnt = zadd(&mut db, b"test_set".to_vec(), 1, b"member1".to_vec());
    assert_eq!(cnt, RedisValueRef::Int(1));
    let cnt = zadd(&mut db, b"test_set".to_vec(), 1, b"member1".to_vec());
    assert_eq!(cnt, RedisValueRef::Int(0));
}

#[test]
fn test_zadd_update() {
    let mut db = RedisDb::new();
    let _ = zadd(&mut db, b"test_set".to_vec(), 1, b"member1".to_vec());
    assert_eq!(zscore(&db, b"test_set", b"member1"), s("1"));
    let _ = zadd(&mut db, b"test_set".to_vec(), 2, b"member1".to_vec());
    assert_eq!(zscore(&db, b"test_set", b"member1"), s("2"));
    assert_eq!(zcard(&db, b"test_set"), RedisValueRef::Int(1));
}

#[test]
fn test_zrank() {
    let mut db = RedisDb::new();
    let _ = zadd(&mut db, b"test_set".to_vec(), 1, b"member1".to_vec());
    let _ = zadd(&mut db, b"test_set".to_vec(), 2, b"member3".to_vec());
    let _ = zadd(&mut db, b"test_set".to_vec(), 2, b"member2".to_vec());

    let rank = zrank(&db, b"test_set", &b"member1".to_vec());
    assert_eq!(rank, RedisValueRef::Int(0));
    let rank = zrank(&db, b"test_set", &b"member2".to_vec());
    assert_eq!(rank, RedisValueRef::Int(1));
    let rank = zrank(&db, b"test_set", &b"member3".to_vec());
    assert_eq!(rank, RedisValueRef::Int(2));
}

#[test]
fn test_zrange() {
    let mut db = RedisDb::new();
    let _ = zadd(&mut db, b"test_set".to_vec(), 1, b"member1".to_vec());
    let _ = zadd(&mut db, b"test_set".to_vec(), 2, b"member2".to_vec());
    let _ = zadd(&mut db, b"test_set".to_vec(), 3, b"member3".to_vec());
    let _ = zadd(&mut db, b"test_set".to_vec(), 4, b"member4".to_vec());

    let range = zrange(&db, b"test_set", 0, 2);
    assert_eq!(
        range,
        RedisValueRef::Array(vec![s("member1"), s("member2"), s("member3")])
    );

    let range = zrange(&db, b"test_set", 0, 20);
    assert_eq!(
        range,
        RedisValueRef::Array(vec![s("member1"), s("member2"), s("member3"), s("member4")])
    );

    let range = zrange(&db, b"test_set", 0, 3);
    assert_eq!(
        range,
        RedisValueRef::Array(vec![s("member1"), s("member2"), s("member3"), s("member4")])
    );

    let range = zrange(&db, b"test_set", 0, 4);
    assert_eq!(
        range,
        RedisValueRef::Array(vec![s("member1"), s("member2"), s("member3"), s("member4")])
    );

    let range = zrange(&db, b"test_set", 4, 0);
    assert_eq!(range, RedisValueRef::Array(vec![]));

    let range = zrange(&db, b"test_set", 40, 50);
    assert_eq!(range, RedisValueRef::Array(vec![]));
}

#[test]
fn test_zrange_negative() {
    let mut db = RedisDb::new();
    let _ = zadd(&mut db, b"test_set".to_vec(), 1, b"member1".to_vec());
    let _ = zadd(&mut db, b"test_set".to_vec(), 2, b"member2".to_vec());
    let _ = zadd(&mut db, b"test_set".to_vec(), 3, b"member3".to_vec());
    let _ = zadd(&mut db, b"test_set".to_vec(), 4, b"member4".to_vec());

    let range = zrange(&db, b"test_set", 2, -1);
    assert_eq!(range, RedisValueRef::Array(vec![s("member3"), s("member4")]));

    let range = zrange(&db, b"test_set", -1, -1);
    assert_eq!(range, RedisValueRef::Array(vec![s("member4")]));

    let range = zrange(&db, b"test_set", -20, -1);
    assert_eq!(
        range,
        RedisValueRef::Array(vec![s("member1"), s("member2"), s("member3"), s("member4")])
    );
}

#[test]
fn test_zcard() {
    let mut db = RedisDb::new();
    let _ = zadd(&mut db, b"test_set".to_vec(), 1, b"member1".to_vec());
    let _ = zadd(&mut db, b"test_set".to_vec(), 2, b"member2".to_vec());

    let card = zcard(&db, b"test_set");
    assert_eq!(card, RedisValueRef::Int(2));
}

#[test]
fn test_zscore() {
    let mut db = RedisDb::new();
    let score = zscore(&db, b"test_set", b"member1");
    assert_eq!(score, RedisValueRef::NullBulkString);

    let _ = zadd(&mut db, b"test_set".to_vec(), 1, b"member1".to_vec());
    let _ = zadd(&mut db, b"test_set".to_vec(), 2, b"member2".to_vec());

    let score = zscore(&db, b"test_set", b"member1");
    assert_eq!(score, s("1"));

    let score = zscore(&db, b"test_set", b"member3");
    assert_eq!(score, RedisValueRef::NullBulkString);
}

#[test]
fn test_zrange_ties_by_member() {
    let mut db = RedisDb::new();
    let _ = zadd(&mut db, b"z".to_vec(), 5, b"bb".to_vec());
    let _ = zadd(&mut db, b"z".to_vec(), 5, b"aa".to_vec());
    let _ = zadd(&mut db, b"z".to_vec(), 5, b"ab".to_vec());
    let range = zrange(&db, b"z", 0, -1);
    assert_eq!(range, RedisValueRef::Array(vec![s("aa"), s("ab"), s("bb")]));
}

#[test]
fn test_zrangebyscore() {
    let mut db = RedisDb::new();
    let _ = zadd(&mut db, b"z".to_vec(), 10, b"a".to_vec());
    let _ = zadd(&mut db, b"z".to_vec(), 20, b"b".to_vec());
    let _ = zadd(&mut db, b"z".to_vec(), 30, b"c".to_vec());
    let range = zrangebyscore(&db, b"z", 15, 30);
    assert_eq!(range, RedisValueRef::Array(vec![s("b"), s("c")]));
}

// The grid numbers that the coordinate normalization computes for a point,
// done here in floating point so the integer interleave can be held to the
// published scores.
fn grids(lat: f64, lng: f64) -> (i32, i32) {
    let two26 = 2.0f64.powi(26);
    let nl = two26 * (lat - (-85.05112878)) / (85.05112878 - (-85.05112878));
    let ng = two26 * (lng - (-180.0)) / 360.0;
    (nl.trunc() as i32, ng.trunc() as i32)
}

#[test]
fn test_encode_point_bangkok() {
    let (glat, glng) = grids(13.7220, 100.5252);
    let encoded = redis_lite::geo::interleave(glat, glng);
    assert_eq!(encoded, 3962257306574459);
}

#[test]
fn test_encode_point_sydney() {
    let (glat, glng) = grids(-33.8688, 151.2093);
    let encoded = redis_lite::geo::interleave(glat, glng);
    assert_eq!(encoded, 3252046221964352);
}

#[test]
fn decode_geocode_paris() {
    let (glat, glng) = redis_lite::geo::decode_grid(3663832752681684);
    let two26 = 2.0f64.powi(26);
    let lat_min = -85.05112878 + (85.05112878 - (-85.05112878)) * (glat as f64) / two26;
    let lat_max = -85.05112878 + (85.05112878 - (-85.05112878)) * ((glat + 1) as f64) / two26;
    let lng_min = -180.0 + 360.0 * (glng as f64) / two26;
    let lng_max = -180.0 + 360.0 * ((glng + 1) as f64) / two26;
    let lat = (lat_min + lat_max) / 2.0;
    let lng = (lng_min + lng_max) / 2.0;
    assert!((lat - 48.8534).abs() < 0.0001);
    assert!((lng - 2.3488).abs() < 0.0001);
}

#[test]
fn test_grid_round_trip() {
    let x = 0x2AAAAAA;
    let y = 0x1555555;
    let code = redis_lite::geo::interleave(x, y);
    let (bx, by) = redis_lite::geo::decode_grid(code);
    assert_eq!((bx, by), (x, y));
}

#[test]
fn test_normalize_index() {
    assert_eq!(normalize_index(2, 4), 2);
    assert_eq!(normalize_index(-1, 4), 3);
    assert_eq!(normalize_index(-20, 4), 0);
    assert_eq!(normalize_index(9, 4), 9);
}
