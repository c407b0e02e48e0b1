use redis_lite::auth::{aclgetuser, aclsetuser, auth, check_auth};
use redis_lite::interpreter::{CmdError, RedisCommand, RedisInterpreter};
use redis_lite::parser::RedisValueRef;
use redis_lite::pubsub::{
    channel_count, channel_subscribe, channel_unsubscribe, control_reply, subscribed_allowed,
    subscribed_mode_error,
};
use redis_lite::replication::{
    can_replicate, command_bytes, handshake_reply_ok, handshake_request, psync_preamble,
    record_replicable, replica_ack_update, replica_step, wait_count,
};
use redis_lite::{RedisDb, Replica};

fn s(v: &str) -> RedisValueRef {
    RedisValueRef::String(v.as_bytes().to_vec())
}

#[test]
fn test_ping() {
    let interpreter = RedisInterpreter::new();
    let command = interpreter
        .interpret(RedisValueRef::Array(vec![s("PING")]))
        .unwrap();
    assert_eq!(command, RedisCommand::Ping);
}

#[test]
fn test_echo() {
    let interpreter = RedisInterpreter::new();
    let command = interpreter
        .interpret(RedisValueRef::Array(vec![s("ECHO"), s("Hello")]))
        .unwrap();
    assert_eq!(command, RedisCommand::Echo(b"Hello".to_vec()));
}

#[test]
fn test_interpret_set_with_px() {
    let interpreter = RedisInterpreter::new();
    let command = interpreter
        .interpret(RedisValueRef::Array(vec![
            s("set"),
            s("foo"),
            s("bar"),
            s("PX"),
            s("50"),
        ]))
        .unwrap();
    assert_eq!(
        command,
        RedisCommand::SetEx(b"foo".to_vec(), b"bar".to_vec(), 50)
    );
}

#[test]
fn test_interpret_set_with_ex() {
    let interpreter = RedisInterpreter::new();
    let command = interpreter
        .interpret(RedisValueRef::Array(vec![
            s("SET"),
            s("foo"),
            s("bar"),
            s("EX"),
            s("2"),
        ]))
        .unwrap();
    assert_eq!(
        command,
        RedisCommand::SetEx(b"foo".to_vec(), b"bar".to_vec(), 2000)
    );
}

#[test]
fn test_interpret_unknown_command() {
    let interpreter = RedisInterpreter::new();
    let e = interpreter
        .interpret(RedisValueRef::Array(vec![s("nosuch")]))
        .unwrap_err();
    assert_eq!(e, CmdError::InvalidCommand(b"NOSUCH".to_vec()));
    assert_eq!(e.message(), b"unknown command 'NOSUCH'".to_vec());
}

#[test]
fn test_interpret_bad_shapes() {
    let interpreter = RedisInterpreter::new();
    let e = interpreter.interpret(RedisValueRef::Int(3)).unwrap_err();
    assert_eq!(e, CmdError::InvalidCommandType);

    let e = interpreter
        .interpret(RedisValueRef::Array(vec![]))
        .unwrap_err();
    assert_eq!(e, CmdError::InvalidArgumentNum);

    let e = interpreter
        .interpret(RedisValueRef::Array(vec![s("GET")]))
        .unwrap_err();
    assert_eq!(e, CmdError::InvalidArgumentNum);

    let e = interpreter
        .interpret(RedisValueRef::Array(vec![
            s("SET"),
            s("k"),
            s("v"),
            s("XX"),
            s("9"),
        ]))
        .unwrap_err();
    assert_eq!(e, CmdError::InvalidArgument(b"XX".to_vec()));

    let e = interpreter
        .interpret(RedisValueRef::Array(vec![
            s("LRANGE"),
            s("k"),
            s("zero"),
            s("1"),
        ]))
        .unwrap_err();
    assert_eq!(e, CmdError::ParseError(b"start".to_vec()));

    let e = interpreter
        .interpret(RedisValueRef::Array(vec![
            s("RPUSH"),
            s("k"),
            RedisValueRef::Int(1),
        ]))
        .unwrap_err();
    assert_eq!(e, CmdError::InvalidStringArg(b"value[0]".to_vec()));
}

#[test]
fn test_auth_flow() {
    let mut db = RedisDb::new();

    // while no account exists, anything may run
    assert!(check_auth(&db, &RedisCommand::Ping));

    let r = aclsetuser(&mut db, b"default", b"hunter2");
    assert_eq!(r, RedisValueRef::SimpleString(b"OK".to_vec()));

    assert!(!check_auth(&db, &RedisCommand::Ping));

    let ok = auth(&db, b"default", b"hunter2");
    assert_eq!(ok, RedisValueRef::SimpleString(b"OK".to_vec()));
    let bad = auth(&db, b"default", b"wrong");
    assert_eq!(
        bad,
        RedisValueRef::Error(
            b"WRONGPASS invalid username-password pair or user is disabled.".to_vec()
        )
    );

    // the stored digest is not the password itself
    let view = aclgetuser(&db, b"default");
    match view {
        RedisValueRef::Array(parts) => match &parts[3] {
            RedisValueRef::Array(pw) => match &pw[0] {
                RedisValueRef::String(h) => {
                    assert_eq!(h.len(), 64);
                    assert_ne!(h, &b"hunter2".to_vec());
                }
                _ => panic!("expected digest"),
            },
            _ => panic!("expected passwords"),
        },
        _ => panic!("expected view"),
    }
}

#[test]
fn test_pubsub_replies() {
    let mut db = RedisDb::new();
    channel_subscribe(&mut db, b"news");
    channel_subscribe(&mut db, b"news");
    assert_eq!(channel_count(&db, b"news"), 2);
    channel_unsubscribe(&mut db, b"news");
    assert_eq!(channel_count(&db, b"news"), 1);
    channel_unsubscribe(&mut db, b"news");
    assert_eq!(channel_count(&db, b"news"), 0);

    let r = control_reply("subscribe", b"news", 1);
    assert_eq!(
        r,
        RedisValueRef::Array(vec![s("subscribe"), s("news"), RedisValueRef::Int(1)])
    );
}

#[test]
fn test_replication_offset_accounting() {
    let mut db = RedisDb::new();
    let cmd = RedisCommand::SetCmd(b"foo".to_vec(), b"bar".to_vec());
    assert!(can_replicate(&cmd));
    assert!(!can_replicate(&RedisCommand::Ping));

    // "*3\r\n$3\r\nSET\r\n$3\r\nfoo\r\n$3\r\nbar\r\n" is 31 bytes
    assert_eq!(command_bytes(&cmd), 31);

    record_replicable(&mut db, &cmd);
    assert_eq!(db.replication_offset, 31);
    record_replicable(&mut db, &RedisCommand::Ping);
    assert_eq!(db.replication_offset, 31);

    let (reply, off) = replica_step(&cmd, 0);
    assert!(reply.is_none());
    assert_eq!(off, 31);

    let getack = RedisCommand::ReplConf(b"GETACK".to_vec(), b"*".to_vec());
    let (reply, off2) = replica_step(&getack, off);
    match reply {
        Some(RedisValueRef::Array(parts)) => {
            assert_eq!(parts[0], s("REPLCONF"));
            assert_eq!(parts[1], s("ACK"));
            assert_eq!(parts[2], s("31"));
        }
        _ => panic!("expected an acknowledgement"),
    }
    assert!(off2 > off);
}

#[test]
fn test_wait_count_and_acks() {
    let mut db = RedisDb::new();
    db.replicas.push(Replica { id: b"r1".to_vec(), offset: 0 });
    db.replicas.push(Replica { id: b"r2".to_vec(), offset: 0 });
    assert_eq!(wait_count(&db, 10), 0);
    replica_ack_update(&mut db, b"r1", 15);
    assert_eq!(wait_count(&db, 10), 1);
    replica_ack_update(&mut db, b"r2", 10);
    assert_eq!(wait_count(&db, 10), 2);
    assert_eq!(wait_count(&db, 16), 0);
}

#[test]
fn test_psync_preamble_payload() {
    let mut db = RedisDb::new();
    db.replication_id = b"abc123".to_vec();
    let r = psync_preamble(&db, b"?", -1);
    match r {
        RedisValueRef::MultiValue(parts) => {
            assert_eq!(parts.len(), 2);
            assert_eq!(
                parts[0],
                RedisValueRef::SimpleString(b"FULLRESYNC abc123 0".to_vec())
            );
            match &parts[1] {
                RedisValueRef::RDBFile(payload) => {
                    assert_eq!(payload.len(), 88);
                    assert_eq!(&payload[0..5], b"REDIS");
                }
                _ => panic!("expected snapshot payload"),
            }
        }
        _ => panic!("expected preamble"),
    }
}

#[test]
fn test_handshake_steps() {
    let mut parser = redis_lite::parser::RespParser;
    let mut out: Vec<u8> = Vec::new();
    parser.encode(handshake_request(0, 6380).unwrap(), &mut out);
    assert_eq!(out, b"*1\r\n$4\r\nPING\r\n".to_vec());
    out.clear();
    parser.encode(handshake_request(1, 6380).unwrap(), &mut out);
    assert_eq!(
        out,
        b"*3\r\n$8\r\nREPLCONF\r\n$14\r\nlistening-port\r\n$4\r\n6380\r\n".to_vec()
    );
    out.clear();
    parser.encode(handshake_request(3, 6380).unwrap(), &mut out);
    assert_eq!(out, b"*3\r\n$5\r\nPSYNC\r\n$1\r\n?\r\n$2\r\n-1\r\n".to_vec());
    assert!(handshake_request(4, 6380).is_none());

    assert!(handshake_reply_ok(0, &s("PONG")));
    assert!(!handshake_reply_ok(0, &s("OK")));
    assert!(handshake_reply_ok(1, &s("OK")));
    assert!(handshake_reply_ok(3, &s("FULLRESYNC x 0")));
}

#[test]
fn test_interpret_subscription_and_replication_verbs() {
    let interpreter = RedisInterpreter::new();
    let c = interpreter
        .interpret(RedisValueRef::Array(vec![s("SUBSCRIBE"), s("news")]))
        .unwrap();
    assert_eq!(c, RedisCommand::Subscribe(b"news".to_vec()));
    let c = interpreter
        .interpret(RedisValueRef::Array(vec![s("unsubscribe"), s("news")]))
        .unwrap();
    assert_eq!(c, RedisCommand::Unsubscribe(b"news".to_vec()));
    let c = interpreter
        .interpret(RedisValueRef::Array(vec![s("AUTH"), s("u"), s("p")]))
        .unwrap();
    assert_eq!(c, RedisCommand::Auth(b"u".to_vec(), b"p".to_vec()));
    let c = interpreter
        .interpret(RedisValueRef::Array(vec![
            s("REPLCONF"),
            s("listening-port"),
            s("6380"),
        ]))
        .unwrap();
    assert_eq!(
        c,
        RedisCommand::ReplConf(b"listening-port".to_vec(), b"6380".to_vec())
    );
    let c = interpreter
        .interpret(RedisValueRef::Array(vec![s("PSYNC"), s("?"), s("-1")]))
        .unwrap();
    assert_eq!(c, RedisCommand::Psync(b"?".to_vec(), -1));
}

#[test]
fn test_subscribed_mode_gate() {
    assert!(subscribed_allowed(&RedisCommand::Ping));
    assert!(subscribed_allowed(&RedisCommand::Subscribe(b"c".to_vec())));
    assert!(subscribed_allowed(&RedisCommand::Unsubscribe(b"c".to_vec())));
    assert!(subscribed_allowed(&RedisCommand::PSubscribe(b"p".to_vec())));
    assert!(subscribed_allowed(&RedisCommand::PUnsubscribe(b"p".to_vec())));
    assert!(!subscribed_allowed(&RedisCommand::Get(b"k".to_vec())));

    let e = subscribed_mode_error(&RedisCommand::Get(b"k".to_vec()));
    assert_eq!(
        e,
        RedisValueRef::Error(b"ERR Can't execute GET in subscribed mode".to_vec())
    );
    let e = subscribed_mode_error(&RedisCommand::SetCmd(b"k".to_vec(), b"v".to_vec()));
    assert_eq!(
        e,
        RedisValueRef::Error(b"ERR Can't execute SET in subscribed mode".to_vec())
    );
}

#[test]
fn test_wait_count_quiescent() {
    let mut db = RedisDb::new();
    db.replicas.push(Replica { id: b"r1".to_vec(), offset: 31 });
    db.replicas.push(Replica { id: b"r2".to_vec(), offset: 31 });
    db.replication_offset = 31;
    // all acknowledgements in: a wait on the current offset counts every replica
    assert_eq!(wait_count(&db, db.replication_offset), db.replicas.len());
    // one lags: the whole registry is no longer counted
    replica_ack_update(&mut db, b"r2", 30);
    assert_ne!(wait_count(&db, db.replication_offset), db.replicas.len());
}
