use redis_lite::rdb::{database_header, database_value, encoded_value, entry, length, parse_rdb};

const EMPTY_DB: &str = "524544495330303132fa0972656469732d76657205382e342e30fa0a7265\
6469732d62697473c040fa056374696d65c27f656169fa08757365642d6d\
656dc280f41000fa08616f662d62617365c000ff4635ae29d917db65";

const FOOBAR_DB: &str = "524544495330303132fa0972656469732d76657205382e342e30fa0a7265\
6469732d62697473c040fa056374696d65c265c56269fa08757365642d6d\
656dc2a0bf1100fa08616f662d62617365c000fe00fb01000003666f6f03\
626172ff857a541ff5ce9d9c";

const BAZ_TTL_DB: &str = "524544495330303132fa0972656469732d76657205382e342e30fa0a7265\
6469732d62697473c040fa056374696d65c29b326369fa08757365642d6d\
656dc2c8201200fa08616f662d62617365c000fe00fb02010003666f6f03\
626172fc89037fab9b010000000362617a046672617aff1ac69407fe5b14\
fc";

fn db_bytes(db_name: &str) -> Vec<u8> {
    hex::decode(db_name).unwrap()
}

#[test]
fn test_baz_ttl_db() {
    let b = db_bytes(BAZ_TTL_DB);
    assert_eq!(b.len(), 121);
    let rdb = parse_rdb(&b).unwrap();
    assert_eq!(rdb.header.magic, b"REDIS".to_vec());
    assert_eq!(rdb.header.version, b"0012".to_vec());
    assert_eq!(rdb.metadata.len(), 5);
    assert_eq!(rdb.entries.len(), 2);
    assert_eq!(rdb.entries[0].kv.key, b"foo".to_vec());
    assert_eq!(rdb.entries[0].kv.value, b"bar".to_vec());
    assert_eq!(rdb.entries[0].expire, None);
    assert_eq!(rdb.entries[1].kv.key, b"baz".to_vec());
    assert_eq!(rdb.entries[1].kv.value, b"fraz".to_vec());
    assert_eq!(rdb.entries[1].expire, Some(1768108786569));
}

#[test]
fn test_foobar_db() {
    let b = db_bytes(FOOBAR_DB);
    assert_eq!(b.len(), 102);
    let rdb = parse_rdb(&b).unwrap();
    assert_eq!(rdb.header.magic, b"REDIS".to_vec());
    assert_eq!(rdb.header.version, b"0012".to_vec());
    assert_eq!(rdb.metadata.len(), 5);
    assert_eq!(rdb.entries.len(), 1);
    assert_eq!(rdb.entries[0].kv.key, b"foo".to_vec());
    assert_eq!(rdb.entries[0].kv.value, b"bar".to_vec());
    assert_eq!(rdb.entries[0].expire, None);
}

#[test]
fn test_empty_file() {
    let b = db_bytes(EMPTY_DB);
    assert_eq!(b.len(), 88);
    let rdb = parse_rdb(&b).unwrap();
    assert_eq!(rdb.header.magic, b"REDIS".to_vec());
    assert_eq!(rdb.header.version, b"0012".to_vec());
    assert_eq!(rdb.metadata.len(), 5);
    let metadata = &rdb.metadata[0];
    assert_eq!(metadata.key, b"redis-ver".to_vec());
    assert_eq!(metadata.value, b"8.4.0".to_vec());

    let metadata = &rdb.metadata[1];
    assert_eq!(metadata.key, b"redis-bits".to_vec());
    assert_eq!(metadata.value, b"64".to_vec());

    let metadata = &rdb.metadata[2];
    assert_eq!(metadata.key, b"ctime".to_vec());
    assert_eq!(metadata.value, b"1767990655".to_vec());

    let metadata = &rdb.metadata[3];
    assert_eq!(metadata.key, b"used-mem".to_vec());
    assert_eq!(metadata.value, b"1111168".to_vec());

    let metadata = &rdb.metadata[4];
    assert_eq!(metadata.key, b"aof-base".to_vec());
    assert_eq!(metadata.value, b"0".to_vec());
}

#[test]
fn test_expire_entry_timestamp() {
    let e = "FC1572E7078F0100000003666F6F03626172";
    let entry_bytes = hex::decode(e).unwrap();
    let (_, entry) = entry(&entry_bytes, 0).unwrap();
    assert_eq!(entry.expire, Some(1713824559637));
    assert_eq!(entry.kv.key, b"foo".to_vec());
    assert_eq!(entry.kv.value, b"bar".to_vec());
}

#[test]
fn test_database_value() {
    let value = "0006666F6F6261720662617A717578";
    let value_bytes = hex::decode(value).unwrap();
    let (_, kv) = database_value(&value_bytes, 0).unwrap();
    assert_eq!(kv.key, b"foobar".to_vec());
    assert_eq!(kv.value, b"bazqux".to_vec());
}

#[test]
fn test_db_header() {
    let db_header = "00FB0302";
    let db_header_bytes = hex::decode(db_header).unwrap();
    let (_, header) = database_header(&db_header_bytes, 0).unwrap();
    assert_eq!(header.0, 0);
    assert_eq!(header.1, 3);
    assert_eq!(header.2, 2);
}

#[test]
fn test_length() {
    let zero: &[u8] = &[0x0A];
    let (_, result) = length(zero, 0).unwrap();
    assert_eq!(result, 10);

    let one: &[u8] = &[0x42, 0xBC];
    let (_, result) = length(one, 0).unwrap();
    assert_eq!(result, 700);

    let two: &[u8] = &[0x80, 0x00, 0x00, 0x42, 0x68];
    let (_, result) = length(two, 0).unwrap();
    assert_eq!(result, 17000);
}

#[test]
fn test_encoded_values() {
    let hello_world = "0D48656C6C6F2C20576F726C6421";
    let hello_world_bytes = hex::decode(hello_world).unwrap();
    let (_, result) = encoded_value(&hello_world_bytes, 0).unwrap();
    assert_eq!(result, b"Hello, World!".to_vec());

    let onetwothree = "C07B";
    let onetwothree_bytes = hex::decode(onetwothree).unwrap();
    let (_, result) = encoded_value(&onetwothree_bytes, 0).unwrap();
    assert_eq!(result, b"123".to_vec());

    let one2five = "C13930";
    let one2five_bytes = hex::decode(one2five).unwrap();
    let (_, result) = encoded_value(&one2five_bytes, 0).unwrap();
    assert_eq!(result, b"12345".to_vec());

    let one2seven = "C287D61200";
    let one2seven_bytes = hex::decode(one2seven).unwrap();
    let (_, result) = encoded_value(&one2seven_bytes, 0).unwrap();
    assert_eq!(result, b"1234567".to_vec());
}

#[test]
fn test_metadata() {
    let md_hex = "FA\
        0972656469732D766572\
        06362E302E3136";
    let md_bytes = hex::decode(md_hex).unwrap();
    let (_, metadata) = redis_lite::rdb::metadata(&md_bytes, 0).unwrap();
    assert_eq!(metadata.key, b"redis-ver".to_vec());
    assert_eq!(metadata.value, b"6.0.16".to_vec());
}

#[test]
fn test_compressed_string_rejected() {
    // A special-encoding selector of three names a compressed string.
    let bytes: &[u8] = &[0xC3, 0x01, 0x02];
    let r = encoded_value(bytes, 0);
    assert!(matches!(r, Err(redis_lite::rdb::RdbError::Compressed)));
}

#[test]
fn test_seconds_expiry_scales_to_ms() {
    // a seconds-form marker: 2 seconds, little endian, then "foo" -> "bar"
    let e = "FD020000000003666F6F03626172";
    let bytes = hex::decode(e).unwrap();
    let (_, entry) = entry(&bytes, 0).unwrap();
    assert_eq!(entry.expire, Some(2000));
    assert_eq!(entry.kv.key, b"foo".to_vec());
}
