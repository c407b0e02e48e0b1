//! Publish/subscribe bookkeeping and replies.  The channel registry counts
//! subscribers per channel; the broadcast channels themselves, and the
//! per-connection subscription race, live with the transport.
use vstd::prelude::*;
use vstd::string::*;

use crate::interpreter::{cmd_name, cw, CmdSpec, RedisCommand};
use crate::parser::{extend_bytes, extend_lit, RedisValueRef, RespSpec, vw, vws};
use crate::table::{tbl_get, tbl_remove, tbl_set};
use crate::{db_wf, RedisDb};

verus! {

/// The acknowledgement of one control command: the verb, the channel, and
/// how many subscriptions the connection now holds.
pub fn control_reply(verb: &str, channel: &[u8], n: i64) -> (r: RedisValueRef)
    ensures
        vw(r) == RespSpec::Array(
            seq![
                RespSpec::String(verb.spec_bytes()),
                RespSpec::String(channel@),
                RespSpec::Int(n as int),
            ],
        ),
{
    let mut verb_bytes: Vec<u8> = Vec::new();
    let vb = verb.as_bytes();
    extend_lit(&mut verb_bytes, vb);
    assert(verb_bytes@ =~= verb.spec_bytes());
    let mut ch: Vec<u8> = Vec::new();
    extend_lit(&mut ch, channel);
    assert(ch@ =~= channel@);
    let mut parts: Vec<RedisValueRef> = Vec::new();
    parts.push(RedisValueRef::String(verb_bytes));
    parts.push(RedisValueRef::String(ch));
    parts.push(RedisValueRef::Int(n));
    proof {
        assert(vws(parts@) =~= seq![
            RespSpec::String(verb.spec_bytes()),
            RespSpec::String(channel@),
            RespSpec::Int(n as int),
        ]);
    }
    RedisValueRef::Array(parts)
}

/// Record one more subscriber on `channel`, creating its registry entry.
pub fn channel_subscribe(db: &mut RedisDb, channel: &[u8])
    requires
        db_wf(*old(db)),
    ensures
        db_wf(*final(db)),
        tbl_get(final(db).pubsub@, channel@) == Some(
            ((match tbl_get(old(db).pubsub@, channel@) {
                Some(n) => if n < u64::MAX {
                    (n + 1) as u64
                } else {
                    u64::MAX
                },
                None => 1u64,
            })),
        ),
        forall|c2: Seq<u8>| c2 != channel@ ==> #[trigger] tbl_get(final(db).pubsub@, c2)
            == tbl_get(old(db).pubsub@, c2),
        final(db).dict == old(db).dict,
        final(db).ttl == old(db).ttl,
        final(db).users == old(db).users,
        final(db).zsets == old(db).zsets,
        final(db).replicas == old(db).replicas,
        final(db).replication_offset == old(db).replication_offset,
{
    let n: u64 = match crate::table::tbl_get_ref(&db.pubsub, channel) {
        Some(n0) => if *n0 < u64::MAX {
            *n0 + 1
        } else {
            u64::MAX
        },
        None => 1,
    };
    tbl_set(&mut db.pubsub, channel, n);
}

/// Record one subscriber leaving `channel`; the entry goes when the last
/// one does.
pub fn channel_unsubscribe(db: &mut RedisDb, channel: &[u8])
    requires
        db_wf(*old(db)),
    ensures
        db_wf(*final(db)),
        tbl_get(final(db).pubsub@, channel@) == (match tbl_get(old(db).pubsub@, channel@) {
            Some(n) => if n > 1 {
                Some((n - 1) as u64)
            } else {
                None::<u64>
            },
            None => None::<u64>,
        }),
        forall|c2: Seq<u8>| c2 != channel@ ==> #[trigger] tbl_get(final(db).pubsub@, c2)
            == tbl_get(old(db).pubsub@, c2),
        final(db).dict == old(db).dict,
        final(db).ttl == old(db).ttl,
        final(db).users == old(db).users,
        final(db).zsets == old(db).zsets,
        final(db).replicas == old(db).replicas,
        final(db).replication_offset == old(db).replication_offset,
{
    match crate::table::tbl_get_ref(&db.pubsub, channel) {
        Some(n0) => {
            if *n0 > 1 {
                let n = *n0 - 1;
                tbl_set(&mut db.pubsub, channel, n);
            } else {
                tbl_remove(&mut db.pubsub, channel);
            }
        },
        None => {},
    }
}

/// How many subscribers the registry counts on `channel`.
pub fn channel_count(db: &RedisDb, channel: &[u8]) -> (r: u64)
    ensures
        r == (match tbl_get(db.pubsub@, channel@) {
            Some(n) => n,
            None => 0u64,
        }),
{
    match crate::table::tbl_get_ref(&db.pubsub, channel) {
        Some(n) => *n,
        None => 0,
    }
}

/// The liveness reply while subscribed: a two-part pong.
pub fn ping() -> (r: RedisValueRef)
    ensures
        vw(r) == RespSpec::Array(
            seq![
                RespSpec::String(("pong").spec_bytes()),
                RespSpec::String(("").spec_bytes()),
            ],
        ),
{
    let mut parts: Vec<RedisValueRef> = Vec::new();
    parts.push(RedisValueRef::String(("pong").as_bytes_vec()));
    parts.push(RedisValueRef::String(("").as_bytes_vec()));
    proof {
        assert(vws(parts@) =~= seq![
            RespSpec::String(("pong").spec_bytes()),
            RespSpec::String(("").spec_bytes()),
        ]);
    }
    RedisValueRef::Array(parts)
}

/// The message a subscriber receives: the verb, the channel, the payload.
pub fn message_reply(channel: &[u8], payload: Vec<u8>) -> (r: RedisValueRef)
    ensures
        vw(r) == RespSpec::Array(
            seq![
                RespSpec::String(("message").spec_bytes()),
                RespSpec::String(channel@),
                RespSpec::String(payload@),
            ],
        ),
{
    let mut ch: Vec<u8> = Vec::new();
    extend_lit(&mut ch, channel);
    assert(ch@ =~= channel@);
    let ghost pv = payload@;
    let mut parts: Vec<RedisValueRef> = Vec::new();
    parts.push(RedisValueRef::String(("message").as_bytes_vec()));
    parts.push(RedisValueRef::String(ch));
    parts.push(RedisValueRef::String(payload));
    proof {
        assert(vws(parts@) =~= seq![
            RespSpec::String(("message").spec_bytes()),
            RespSpec::String(channel@),
            RespSpec::String(pv),
        ]);
    }
    RedisValueRef::Array(parts)
}

/// The acknowledgement of a pattern command, which this engine accepts
/// without acting on.
pub fn pattern_reply() -> (r: RedisValueRef)
    ensures
        vw(r) == RespSpec::String(("OK").spec_bytes()),
{
    RedisValueRef::String(("OK").as_bytes_vec())
}

/// Whether a command may run while the connection is subscribed: only the
/// subscription verbs and the liveness probe.
pub open spec fn allowed_while_subscribed(c: CmdSpec) -> bool {
    match c {
        CmdSpec::Subscribe(_) => true,
        CmdSpec::Unsubscribe(_) => true,
        CmdSpec::PSubscribe(_) => true,
        CmdSpec::PUnsubscribe(_) => true,
        CmdSpec::Ping => true,
        _ => false,
    }
}

/// Decide whether this command may run while subscribed.
pub fn subscribed_allowed(command: &RedisCommand) -> (r: bool)
    ensures
        r == allowed_while_subscribed(cw(*command)),
{
    match command {
        RedisCommand::Subscribe(_) => true,
        RedisCommand::Unsubscribe(_) => true,
        RedisCommand::PSubscribe(_) => true,
        RedisCommand::PUnsubscribe(_) => true,
        RedisCommand::Ping => true,
        _ => false,
    }
}

/// The refusal a subscribed connection sends for anything else, naming
/// the command it refused.
pub fn subscribed_mode_error(command: &RedisCommand) -> (r: RedisValueRef)
    ensures
        vw(r) == RespSpec::Error(
            ("ERR Can't execute ").spec_bytes() + cmd_name(cw(*command)) + (
            " in subscribed mode").spec_bytes(),
        ),
{
    let mut msg = ("ERR Can't execute ").as_bytes_vec();
    let name = command.name();
    extend_bytes(&mut msg, &name);
    let tail = (" in subscribed mode").as_bytes_vec();
    extend_bytes(&mut msg, &tail);
    proof {
        assert(msg@ =~= ("ERR Can't execute ").spec_bytes() + cmd_name(cw(*command)) + (
        " in subscribed mode").spec_bytes());
    }
    RedisValueRef::Error(msg)
}

} // verus!
