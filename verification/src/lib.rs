//! A verified core for a small RESP key/value server: wire codec, command
//! interpreter, keyspace with expiry, lists with blocking waiters, streams,
//! sorted sets, geohash grids, snapshot parsing and replication accounting.
use vstd::prelude::*;
use vstd::string::*;

pub mod auth;
pub mod geo;
pub mod interpreter;
pub mod lists;
pub mod parser;
pub mod pubsub;
pub mod rdb;
pub mod replication;
pub mod streams;
pub mod table;
pub mod util;
pub mod zset;

use crate::parser::{copy_bytes, RedisValueRef, RespSpec, vw};
use crate::streams::{sc_wf, StreamCollection};
use crate::table::{tbl_get, tbl_remove, tbl_set, tbl_wf};
use crate::util::now_millis;

verus! {

/// What one key stores: an opaque byte string, a list of byte strings, or
/// an append-only stream.
#[derive(Debug, PartialEq)]
pub enum RedisValue {
    String(Vec<u8>),
    List(Vec<Vec<u8>>),
    Stream(StreamCollection),
}

/// The wire rendering of a stored value taken whole, as the conversion to
/// the protocol format gives it: a string becomes a bulk string, a list an
/// array of bulk strings; a stream has no single wire shape and renders as
/// the wrong-kind error.  A plain read is narrower: see `read_view`.
pub open spec fn stored_view(v: RedisValue) -> RespSpec {
    match v {
        RedisValue::String(s) => RespSpec::String(s@),
        RedisValue::List(l) => RespSpec::Array(
            Seq::new(l@.len(), |i: int| RespSpec::String(l@[i]@)),
        ),
        RedisValue::Stream(_) => RespSpec::Error(
            ("WRONGTYPE Operation against a key holding the wrong kind of value").spec_bytes(),
        ),
    }
}

impl RedisValue {
    /// Convert from storage format to wire protocol format.
    pub fn to_ref(&self) -> (r: RedisValueRef)
        ensures
            vw(r) == stored_view(*self),
    {
        match self {
            RedisValue::String(s) => RedisValueRef::String(copy_bytes(s)),
            RedisValue::List(l) => {
                let mut items: Vec<RedisValueRef> = Vec::new();
                let ghost target = Seq::new(l@.len(), |i: int| RespSpec::String(l@[i]@));
                let mut i: usize = 0;
                while i < l.len()
                    invariant
                        0 <= i <= l@.len(),
                        target == Seq::new(l@.len(), |k: int| RespSpec::String(l@[k]@)),
                        parser::vws(items@) =~= target.take(i as int),
                    decreases l@.len() - i,
                {
                    let ghost prev = items@;
                    let c = copy_bytes(&l[i]);
                    let elem = RedisValueRef::String(c);
                    let ghost ev = vw(elem);
                    proof {
                        assert(ev == RespSpec::String(l@[i as int]@));
                        assert(parser::vws(prev).len() == i as int);
                    }
                    items.push(elem);
                    proof {
                        assert(items@.len() == i + 1);
                        assert(vw(items@[i as int]) == ev);
                        assert forall|j: int| 0 <= j < i + 1 implies parser::vws(items@)[j]
                            == target.take(i + 1)[j] by {
                            if j < i {
                                assert(items@[j] == prev[j]);
                                assert(parser::vws(prev)[j] == target.take(i as int)[j]);
                            } else {
                                assert(target.take(i + 1)[j] == RespSpec::String(l@[i as int]@));
                            }
                        }
                        assert(parser::vws(items@) =~= target.take(i + 1));
                    }
                    i += 1;
                }
                assert(target.take(l@.len() as int) =~= target);
                let r = RedisValueRef::Array(items);
                assert(vw(r) == RespSpec::Array(target));
                r
            },
            RedisValue::Stream(_) => RedisValueRef::Error(
                ("WRONGTYPE Operation against a key holding the wrong kind of value")
                    .as_bytes_vec(),
            ),
        }
    }

    /// Convert from wire protocol format to storage format: a bulk string
    /// stores as a string, an array of bulk strings as a list; anything
    /// else is refused with a reason.
    pub fn try_from_ref(value: RedisValueRef) -> (r: Result<RedisValue, Vec<u8>>)
        ensures
            match value {
                RedisValueRef::String(s) => r == Ok::<RedisValue, Vec<u8>>(RedisValue::String(s)),
                RedisValueRef::Array(items) => if forall|i: int|
                    0 <= i < items@.len() ==> #[trigger] items@[i] matches RedisValueRef::String(
                    _) {
                    r matches Ok(v) && v matches RedisValue::List(l) && l@.len() == items@.len()
                        && forall|i: int|
                        0 <= i < l@.len() ==> #[trigger] vw(items@[i]) == RespSpec::String(l@[i]@)
                } else {
                    r matches Err(e) && e@ == ("List can only contain strings").spec_bytes()
                },
                _ => r matches Err(e) && e@ == (
                "Cannot convert this RedisValueRef to storage format").spec_bytes(),
            },
    {
        match value {
            RedisValueRef::String(s) => Ok(RedisValue::String(s)),
            RedisValueRef::Array(items) => {
                assert(value matches RedisValueRef::Array(it2) && it2@ == items@);
                let mut bytes_vec: Vec<Vec<u8>> = Vec::new();
                let ghost its = items@;
                let mut i: usize = 0;
                while i < items.len()
                    invariant
                        0 <= i <= its.len(),
                        items@ == its,
                        value matches RedisValueRef::Array(it2) && it2@ == its,
                        bytes_vec@.len() == i,
                        forall|j: int|
                            0 <= j < i ==> #[trigger] its[j] matches RedisValueRef::String(_),
                        forall|j: int|
                            0 <= j < i ==> #[trigger] vw(its[j]) == RespSpec::String(
                                bytes_vec@[j]@,
                            ),
                    decreases its.len() - i,
                {
                    match &items[i] {
                        RedisValueRef::String(s) => {
                            bytes_vec.push(copy_bytes(s));
                        },
                        _ => {
                            assert(!(its[i as int] matches RedisValueRef::String(_)));
                            return Err(("List can only contain strings").as_bytes_vec());
                        },
                    }
                    i += 1;
                }
                Ok(RedisValue::List(bytes_vec))
            },
            _ => Err(("Cannot convert this RedisValueRef to storage format").as_bytes_vec()),
        }
    }
}

/// One follower as the leader tracks it: its name and how many bytes of the
/// replication stream it has acknowledged.
#[derive(Debug)]
pub struct Replica {
    pub id: Vec<u8>,
    pub offset: u64,
}

/// The process-wide store: the typed keyspace with its expiry deadlines,
/// the waiter queues for blocking reads, the channel registry, the replica
/// registry with the running replication byte counter, and the
/// configuration values CONFIG GET exposes.
pub struct RedisDb {
    pub dict: Vec<(Vec<u8>, RedisValue)>,
    pub ttl: Vec<(Vec<u8>, u64)>,
    pub waiters: Vec<(Vec<u8>, Vec<u64>)>,
    pub stream_waiters: Vec<(Vec<u8>, Vec<u64>)>,
    pub pubsub: Vec<(Vec<u8>, u64)>,
    pub users: Vec<(Vec<u8>, crate::auth::User)>,
    pub zsets: Vec<(Vec<u8>, crate::zset::ZSet)>,
    pub replicas: Vec<Replica>,
    pub replication_id: Vec<u8>,
    pub replication_offset: u64,
    pub dir: Vec<u8>,
    pub dbfilename: Vec<u8>,
}

/// A healthy store: every registry keyed by distinct keys, every stream in
/// strictly increasing identifier order.
pub open spec fn db_wf(db: RedisDb) -> bool {
    &&& tbl_wf(db.dict@)
    &&& tbl_wf(db.ttl@)
    &&& tbl_wf(db.waiters@)
    &&& tbl_wf(db.stream_waiters@)
    &&& tbl_wf(db.pubsub@)
    &&& tbl_wf(db.users@)
    &&& tbl_wf(db.zsets@)
    &&& streams_wf(db.dict@)
    &&& zsets_wf(db.zsets@)
}

/// Every stored sorted set is healthy.
pub open spec fn zsets_wf(s: Seq<(Vec<u8>, crate::zset::ZSet)>) -> bool {
    forall|i: int| 0 <= i < s.len() ==> crate::zset::zset_wf(#[trigger] s[i].1)
}

/// Every stream stored in the keyspace is in strictly increasing
/// identifier order.
pub open spec fn streams_wf(s: Seq<(Vec<u8>, RedisValue)>) -> bool {
    forall|i: int|
        0 <= i < s.len() ==> match #[trigger] s[i].1 {
            RedisValue::Stream(sc) => sc_wf(sc.0@),
            _ => true,
        }
}

/// The registries other than the keyspace and expiry map, side by side.
pub open spec fn same_registries(a: RedisDb, b: RedisDb) -> bool {
    &&& a.waiters == b.waiters
    &&& a.stream_waiters == b.stream_waiters
    &&& a.pubsub == b.pubsub
    &&& a.users == b.users
    &&& a.zsets == b.zsets
    &&& a.replicas == b.replicas
    &&& a.replication_id == b.replication_id
    &&& a.replication_offset == b.replication_offset
    &&& a.dir == b.dir
    &&& a.dbfilename == b.dbfilename
}

impl RedisDb {
    /// An empty store.
    pub fn new() -> (r: Self)
        ensures
            db_wf(r),
            r.dict@.len() == 0,
            r.ttl@.len() == 0,
            r.waiters@.len() == 0,
            r.stream_waiters@.len() == 0,
            r.pubsub@.len() == 0,
            r.users@.len() == 0,
            r.zsets@.len() == 0,
            r.replicas@.len() == 0,
            r.replication_offset == 0,
    {
        RedisDb {
            dict: Vec::new(),
            ttl: Vec::new(),
            waiters: Vec::new(),
            stream_waiters: Vec::new(),
            pubsub: Vec::new(),
            users: Vec::new(),
            zsets: Vec::new(),
            replicas: Vec::new(),
            replication_id: Vec::new(),
            replication_offset: 0,
            dir: Vec::new(),
            dbfilename: Vec::new(),
        }
    }
}

/// What a plain read renders: the byte string stored under the key; a
/// key of any other kind answers with the wrong-kind error.
pub open spec fn read_view(v: RedisValue) -> RespSpec {
    match v {
        RedisValue::String(s) => RespSpec::String(s@),
        _ => RespSpec::Error(
            ("WRONGTYPE Operation against a key holding the wrong kind of value").spec_bytes(),
        ),
    }
}

/// Whether `k`'s deadline has passed at time `now`: such a key is logically
/// absent.
pub open spec fn expired_at(db: RedisDb, k: Seq<u8>, now: u64) -> bool {
    match tbl_get(db.ttl@, k) {
        Some(e) => e < now,
        None => false,
    }
}

/// The liveness reply: always the fixed greeting.
pub fn ping() -> (r: RedisValueRef)
    ensures
        vw(r) == RespSpec::SimpleString(("PONG").spec_bytes()),
{
    RedisValueRef::SimpleString(("PONG").as_bytes_vec())
}

/// Hand the argument straight back as a bulk string.
pub fn echo(arg: Vec<u8>) -> (r: RedisValueRef)
    ensures
        vw(r) == RespSpec::String(arg@),
{
    RedisValueRef::String(arg)
}

/// Bind `key` to the byte string `value`; whatever kind was stored there is
/// replaced.  An old expiry is left as it was.
pub fn set(db: &mut RedisDb, key: Vec<u8>, value: Vec<u8>) -> (r: RedisValueRef)
    requires
        db_wf(*old(db)),
    ensures
        db_wf(*final(db)),
        vw(r) == RespSpec::SimpleString(("OK").spec_bytes()),
        tbl_get(final(db).dict@, key@) == Some(RedisValue::String(value)),
        forall|k2: Seq<u8>| k2 != key@ ==> #[trigger] tbl_get(final(db).dict@, k2) == tbl_get(
            old(db).dict@,
            k2,
        ),
        final(db).ttl == old(db).ttl,
        same_registries(*final(db), *old(db)),
{
    let ghost d0 = db.dict@;
    let nv = RedisValue::String(value);
    let ghost nvg = nv;
    tbl_set(&mut db.dict, key.as_slice(), nv);
    proof {
        lemma_from_step(d0, db.dict@, nvg);
        lemma_dict_streams_wf(d0, db.dict@);
    }
    RedisValueRef::SimpleString(("OK").as_bytes_vec())
}

/// Bind `key` to `value` with a deadline `ttl` milliseconds past `now`,
/// saturating at the largest representable time.
pub fn set_ex_at(db: &mut RedisDb, key: Vec<u8>, value: Vec<u8>, ttl: u64, now: u64) -> (r:
    RedisValueRef)
    requires
        db_wf(*old(db)),
    ensures
        db_wf(*final(db)),
        vw(r) == RespSpec::SimpleString(("OK").spec_bytes()),
        tbl_get(final(db).dict@, key@) == Some(RedisValue::String(value)),
        tbl_get(final(db).ttl@, key@) == Some(
            (if now + ttl <= u64::MAX {
                (now + ttl) as u64
            } else {
                u64::MAX
            }),
        ),
        forall|k2: Seq<u8>| k2 != key@ ==> #[trigger] tbl_get(final(db).dict@, k2) == tbl_get(
            old(db).dict@,
            k2,
        ),
        forall|k2: Seq<u8>| k2 != key@ ==> #[trigger] tbl_get(final(db).ttl@, k2) == tbl_get(
            old(db).ttl@,
            k2,
        ),
        same_registries(*final(db), *old(db)),
{
    let expiry: u64 = if now <= u64::MAX - ttl {
        now + ttl
    } else {
        u64::MAX
    };
    let ghost d0 = db.dict@;
    let nv = RedisValue::String(value);
    let ghost nvg = nv;
    tbl_set(&mut db.dict, key.as_slice(), nv);
    tbl_set(&mut db.ttl, key.as_slice(), expiry);
    proof {
        lemma_from_step(d0, db.dict@, nvg);
        lemma_dict_streams_wf(d0, db.dict@);
    }
    RedisValueRef::SimpleString(("OK").as_bytes_vec())
}

/// Bind `key` to `value` with a deadline `ttl` milliseconds from now, read
/// off the wall clock.
pub fn set_ex(db: &mut RedisDb, key: Vec<u8>, value: Vec<u8>, ttl: u64) -> (r: RedisValueRef)
    requires
        db_wf(*old(db)),
    ensures
        db_wf(*final(db)),
        vw(r) == RespSpec::SimpleString(("OK").spec_bytes()),
        tbl_get(final(db).dict@, key@) == Some(RedisValue::String(value)),
        tbl_get(final(db).ttl@, key@) is Some,
        forall|k2: Seq<u8>| k2 != key@ ==> #[trigger] tbl_get(final(db).dict@, k2) == tbl_get(
            old(db).dict@,
            k2,
        ),
        forall|k2: Seq<u8>| k2 != key@ ==> #[trigger] tbl_get(final(db).ttl@, k2) == tbl_get(
            old(db).ttl@,
            k2,
        ),
        same_registries(*final(db), *old(db)),
{
    let now = now_millis();
    set_ex_at(db, key, value, ttl, now)
}

/// What reading `k` at time `now` does: an expired key reads as absent and
/// both its value and its deadline are dropped; otherwise the store is
/// untouched and the stored value is rendered for the wire.
pub open spec fn get_outcome(
    pre: RedisDb,
    post: RedisDb,
    rv: RespSpec,
    k: Seq<u8>,
    now: u64,
) -> bool {
    if expired_at(pre, k, now) {
        &&& rv == RespSpec::NullBulkString
        &&& tbl_get(post.dict@, k) is None
        &&& tbl_get(post.ttl@, k) is None
        &&& forall|k2: Seq<u8>| k2 != k ==> #[trigger] tbl_get(post.dict@, k2) == tbl_get(
            pre.dict@,
            k2,
        )
        &&& forall|k2: Seq<u8>| k2 != k ==> #[trigger] tbl_get(post.ttl@, k2) == tbl_get(
            pre.ttl@,
            k2,
        )
        &&& same_registries(post, pre)
    } else {
        &&& post == pre
        &&& rv == (match tbl_get(pre.dict@, k) {
            Some(v) => read_view(v),
            None => RespSpec::NullBulkString,
        })
    }
}

/// Read `key` as of time `now`, expiring it lazily first.  A key past its
/// deadline is observed as absent and dropped; no value is ever returned
/// past its expiry.
pub fn get_at(db: &mut RedisDb, key: &[u8], now: u64) -> (r: RedisValueRef)
    requires
        db_wf(*old(db)),
    ensures
        db_wf(*final(db)),
        get_outcome(*old(db), *final(db), vw(r), key@, now),
{
    let is_expired = match table::tbl_get_ref(&db.ttl, key) {
        Some(expiry) => *expiry < now,
        None => false,
    };
    if is_expired {
        let ghost d0 = db.dict@;
        tbl_remove(&mut db.dict, key);
        tbl_remove(&mut db.ttl, key);
        proof {
            lemma_from_take(d0, db.dict@);
            lemma_dict_streams_wf(d0, db.dict@);
        }
        return RedisValueRef::NullBulkString;
    }
    match table::tbl_get_ref(&db.dict, key) {
        Some(RedisValue::String(s)) => RedisValueRef::String(copy_bytes(s)),
        Some(_) => RedisValueRef::Error(
            ("WRONGTYPE Operation against a key holding the wrong kind of value")
                .as_bytes_vec(),
        ),
        None => RedisValueRef::NullBulkString,
    }
}

/// Read `key` as of the wall clock, expiring it lazily first.
pub fn get(db: &mut RedisDb, key: &[u8]) -> (r: RedisValueRef)
    requires
        db_wf(*old(db)),
    ensures
        db_wf(*final(db)),
        exists|now: u64| get_outcome(*old(db), *final(db), vw(r), key@, now),
{
    let ghost pre = *db;
    let now = now_millis();
    let r = get_at(db, key, now);
    proof {
        assert(get_outcome(pre, *db, vw(r), key@, now));
    }
    r
}

/// Every entry of `s1` holds either a value taken from `s0` or one that is
/// not a stream.
pub open spec fn dict_entries_from(
    s0: Seq<(Vec<u8>, RedisValue)>,
    s1: Seq<(Vec<u8>, RedisValue)>,
) -> bool {
    forall|i: int|
        0 <= i < s1.len() ==> (exists|j: int| 0 <= j < s0.len() && #[trigger] s1[i].1 == s0[j].1)
            || !(s1[i].1 matches RedisValue::Stream(_))
}

/// Carrying values across two rebuilds carries them across the whole.
pub proof fn lemma_entries_from_trans(
    s0: Seq<(Vec<u8>, RedisValue)>,
    s1: Seq<(Vec<u8>, RedisValue)>,
    s2: Seq<(Vec<u8>, RedisValue)>,
)
    requires
        dict_entries_from(s0, s1),
        dict_entries_from(s1, s2),
    ensures
        dict_entries_from(s0, s2),
{
    assert forall|i: int|
        0 <= i < s2.len() implies (exists|j: int|
        0 <= j < s0.len() && #[trigger] s2[i].1 == s0[j].1) || !(s2[i].1
        matches RedisValue::Stream(_)) by {
        if s2[i].1 matches RedisValue::Stream(_) {
            let j1 = choose|j1: int| 0 <= j1 < s1.len() && s2[i].1 == s1[j1].1;
            let j0 = choose|j0: int| 0 <= j0 < s0.len() && s1[j1].1 == s0[j0].1;
            assert(s2[i].1 == s0[j0].1);
        }
    }
}

/// The entry-origin clause a table rebuild leaves behind, named.
pub proof fn lemma_from_take(
    pre: Seq<(Vec<u8>, RedisValue)>,
    post: Seq<(Vec<u8>, RedisValue)>,
)
    requires
        crate::table::values_from(pre, post),
    ensures
        dict_entries_from(pre, post),
{
    assert forall|i: int|
        0 <= i < post.len() implies (exists|j: int|
        0 <= j < pre.len() && #[trigger] post[i].1 == pre[j].1) || !(post[i].1
        matches RedisValue::Stream(_)) by {
        assert(0 <= i < post.len() ==> exists|j: int| 0 <= j < pre.len() && post[i].1
            == pre[j].1) by {
            if 0 <= i < post.len() {
                let p = post[i];
                assert(exists|j: int| 0 <= j < pre.len() && post[i].1 == pre[j].1);
            }
        }
    }
}

/// A rebind whose new value is not a stream keeps entry origins.
pub proof fn lemma_from_step(
    pre: Seq<(Vec<u8>, RedisValue)>,
    post: Seq<(Vec<u8>, RedisValue)>,
    v: RedisValue,
)
    requires
        crate::table::values_from_or(pre, post, v),
        !(v matches RedisValue::Stream(_)),
    ensures
        dict_entries_from(pre, post),
{
    assert forall|i: int|
        0 <= i < post.len() implies (exists|j: int|
        0 <= j < pre.len() && #[trigger] post[i].1 == pre[j].1) || !(post[i].1
        matches RedisValue::Stream(_)) by {
        let p = post[i];
        if post[i].1 matches RedisValue::Stream(_) {
            assert(post[i].1 != v);
        }
    }
}

/// Rebinding one key to an in-order stream, over entries that all came
/// from an in-order keyspace, keeps every stream in order.
pub proof fn lemma_streams_wf_set(
    s0: Seq<(Vec<u8>, RedisValue)>,
    s1: Seq<(Vec<u8>, RedisValue)>,
    v: RedisValue,
)
    requires
        streams_wf(s0),
        crate::table::values_from_or(s0, s1, v),
        match v {
            RedisValue::Stream(sc) => sc_wf(sc.0@),
            _ => true,
        },
    ensures
        streams_wf(s1),
{
    assert forall|i: int| 0 <= i < s1.len() implies match #[trigger] s1[i].1 {
        RedisValue::Stream(sc) => sc_wf(sc.0@),
        _ => true,
    } by {
        let p = s1[i];
        if s1[i].1 != v && (s1[i].1 matches RedisValue::Stream(_)) {
            let j = choose|j: int| 0 <= j < s0.len() && s1[i].1 == s0[j].1;
            assert(s0[j].1 == s1[i].1);
        }
    }
}

/// A keyspace rebuilt from old values, or from values that are not
/// streams, keeps every stream in order.
pub proof fn lemma_dict_streams_wf(
    s0: Seq<(Vec<u8>, RedisValue)>,
    s1: Seq<(Vec<u8>, RedisValue)>,
)
    requires
        streams_wf(s0),
        dict_entries_from(s0, s1),
    ensures
        streams_wf(s1),
{
    assert forall|i: int| 0 <= i < s1.len() implies match #[trigger] s1[i].1 {
        RedisValue::Stream(sc) => sc_wf(sc.0@),
        _ => true,
    } by {
        match s1[i].1 {
            RedisValue::Stream(sc) => {
                let j = choose|j: int| 0 <= j < s0.len() && s1[i].1 == s0[j].1;
                assert(s0[j].1 matches RedisValue::Stream(sc2) && sc2 == sc);
            },
            _ => {},
        }
    }
}

/// One command against the store: dispatch to the owning component and
/// hand back the reply.  Commands that reach past the store — the
/// subscription verbs, replication configuration — answer here with an
/// acknowledgement; their transport work happens at the caller.
pub fn handle_command(db: &mut RedisDb, command: interpreter::RedisCommand) -> (r:
    RedisValueRef)
    requires
        db_wf(*old(db)),
    ensures
        db_wf(*final(db)),
        match command {
            interpreter::RedisCommand::Ping => *final(db) == *old(db) && vw(r)
                == RespSpec::SimpleString(("PONG").spec_bytes()),
            interpreter::RedisCommand::Echo(m) => *final(db) == *old(db) && vw(r)
                == RespSpec::String(m@),
            interpreter::RedisCommand::SetCmd(k, v) => tbl_get(final(db).dict@, k@) == Some(
                RedisValue::String(v),
            ) && vw(r) == RespSpec::SimpleString(("OK").spec_bytes()),
            interpreter::RedisCommand::SetEx(k, v, _t) => tbl_get(final(db).dict@, k@) == Some(
                RedisValue::String(v),
            ) && tbl_get(final(db).ttl@, k@) is Some && vw(r) == RespSpec::SimpleString(
                ("OK").spec_bytes(),
            ),
            interpreter::RedisCommand::Get(k) => exists|now: u64|
                #[trigger] get_outcome(*old(db), *final(db), vw(r), k@, now),
            interpreter::RedisCommand::Rpush(k, v) => exists|now: u64|
                #[trigger] crate::lists::push_outcome(
                    *old(db),
                    *final(db),
                    r,
                    k@,
                    crate::lists::rpush_result(*old(db), k@, v@, now),
                    now,
                ),
            interpreter::RedisCommand::Lrange(k, a, b) => *final(db) == *old(db) && exists|
                now: u64,
            |
                #![trigger expired_at(*old(db), k@, now)]
                vw(r) == RespSpec::Array(
                    (if !expired_at(*old(db), k@, now) {
                        match tbl_get(old(db).dict@, k@) {
                            Some(RedisValue::List(l)) => crate::lists::strings_view(
                                crate::lists::lrange_spec(l@, a as int, b as int),
                            ),
                            _ => Seq::<RespSpec>::empty(),
                        }
                    } else {
                        Seq::<RespSpec>::empty()
                    }),
                ),
            _ => *final(db) == *old(db) && vw(r) == RespSpec::SimpleString(("OK").spec_bytes()),
        },
{
    match command {
        interpreter::RedisCommand::Ping => ping(),
        interpreter::RedisCommand::Echo(arg) => echo(arg),
        interpreter::RedisCommand::SetCmd(key, value) => set(db, key, value),
        interpreter::RedisCommand::SetEx(key, value, ttl) => set_ex(db, key, value, ttl),
        interpreter::RedisCommand::Get(key) => get(db, key.as_slice()),
        interpreter::RedisCommand::Rpush(key, value) => crate::lists::rpush(db, key, value),
        interpreter::RedisCommand::Lrange(key, a, b) => crate::lists::lrange(
            db,
            key.as_slice(),
            a,
            b,
        ),
        interpreter::RedisCommand::Auth(_u, _p) => RedisValueRef::SimpleString(
            ("OK").as_bytes_vec(),
        ),
        interpreter::RedisCommand::Subscribe(_c) => RedisValueRef::SimpleString(
            ("OK").as_bytes_vec(),
        ),
        interpreter::RedisCommand::Unsubscribe(_c) => RedisValueRef::SimpleString(
            ("OK").as_bytes_vec(),
        ),
        interpreter::RedisCommand::PSubscribe(_p) => RedisValueRef::SimpleString(
            ("OK").as_bytes_vec(),
        ),
        interpreter::RedisCommand::PUnsubscribe(_p) => RedisValueRef::SimpleString(
            ("OK").as_bytes_vec(),
        ),
        interpreter::RedisCommand::ReplConf(_a, _b) => RedisValueRef::SimpleString(
            ("OK").as_bytes_vec(),
        ),
        interpreter::RedisCommand::Psync(_a, _b) => RedisValueRef::SimpleString(
            ("OK").as_bytes_vec(),
        ),
    }
}

/// The configuration view: the snapshot directory and file name, each
/// answered as a parameter/value pair; an unknown parameter reads as an
/// empty array.
pub fn config_get(db: &RedisDb, param: &[u8]) -> (r: RedisValueRef)
    ensures
        vw(r) == (if param@ == ("dir").spec_bytes() {
            RespSpec::Array(
                seq![RespSpec::String(("dir").spec_bytes()), RespSpec::String(db.dir@)],
            )
        } else if param@ == ("dbfilename").spec_bytes() {
            RespSpec::Array(
                seq![
                    RespSpec::String(("dbfilename").spec_bytes()),
                    RespSpec::String(db.dbfilename@),
                ],
            )
        } else {
            RespSpec::Array(Seq::<RespSpec>::empty())
        }),
{
    if crate::util::bytes_eq(param, ("dir").as_bytes()) {
        let mut parts: Vec<RedisValueRef> = Vec::new();
        parts.push(RedisValueRef::String(("dir").as_bytes_vec()));
        parts.push(RedisValueRef::String(copy_bytes(&db.dir)));
        proof {
            assert(parser::vws(parts@) =~= seq![
                RespSpec::String(("dir").spec_bytes()),
                RespSpec::String(db.dir@),
            ]);
        }
        RedisValueRef::Array(parts)
    } else if crate::util::bytes_eq(param, ("dbfilename").as_bytes()) {
        let mut parts: Vec<RedisValueRef> = Vec::new();
        parts.push(RedisValueRef::String(("dbfilename").as_bytes_vec()));
        parts.push(RedisValueRef::String(copy_bytes(&db.dbfilename)));
        proof {
            assert(parser::vws(parts@) =~= seq![
                RespSpec::String(("dbfilename").spec_bytes()),
                RespSpec::String(db.dbfilename@),
            ]);
        }
        RedisValueRef::Array(parts)
    } else {
        let r = RedisValueRef::Array(Vec::new());
        assert(parser::vws(Seq::<RedisValueRef>::empty()) =~= Seq::<RespSpec>::empty());
        r
    }
}

} // verus!
