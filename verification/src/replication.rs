//! Replication accounting: the wire size of a reply, the wire form of a
//! command, the leader's running byte counter, the replica's received
//! counter, acknowledgement tracking, and the full-resync preamble.  The
//! leader's offset grows by exactly the encoded size of each replicable
//! command.
use vstd::prelude::*;
use vstd::string::*;

use base64::Engine;

use crate::interpreter::{cw, CmdSpec, RedisCommand};
use crate::lists::strings_view;
use crate::parser::{
    copy_bytes, encode_elems, encode_spec, extend_bytes, extend_lit, RedisValueRef, RespSpec, vw,
    vws,
};
use crate::util::{dec_rep, dec_rep_i64, i64_to_dec, u64_to_dec};
use crate::{db_wf, RedisDb, Replica};

verus! {

/// The byte count of one value's wire frame, as the accounting computes
/// it: an internal error note counts nothing.
pub open spec fn rv_size(w: RespSpec) -> int
    decreases w, 0nat,
{
    match w {
        RespSpec::SimpleString(s) => 1 + s.len() as int + 2,
        RespSpec::Error(e) => 1 + e.len() as int + 2,
        RespSpec::ErrorMsg(_) => 0,
        RespSpec::Int(i) => 1 + dec_rep_i64(i).len() as int + 2,
        RespSpec::String(s) => 1 + dec_rep(s.len()).len() as int + 2 + s.len() as int + 2,
        RespSpec::Array(items) => 1 + dec_rep(items.len()).len() as int + 2 + rv_size_seq(items),
        RespSpec::NullArray => 5,
        RespSpec::NullBulkString => 5,
        RespSpec::RDBFile(b) => 1 + dec_rep(b.len()).len() as int + 2 + b.len() as int,
        RespSpec::MultiValue(items) => rv_size_seq(items),
    }
}

/// The byte count of a run of frames.
pub open spec fn rv_size_seq(items: Seq<RespSpec>) -> int
    decreases items, 1nat,
{
    if items.len() == 0 {
        0
    } else {
        rv_size(items.first()) + rv_size_seq(items.drop_first())
    }
}

/// Whether a value holds no internal error note anywhere.
pub open spec fn counts_whole(w: RespSpec) -> bool
    decreases w, 0nat,
{
    match w {
        RespSpec::ErrorMsg(_) => false,
        RespSpec::Array(items) => forall|i: int|
            0 <= i < items.len() ==> counts_whole(#[trigger] items[i]),
        RespSpec::MultiValue(items) => forall|i: int|
            0 <= i < items.len() ==> counts_whole(#[trigger] items[i]),
        _ => true,
    }
}

/// The offset law: for a value free of internal error notes, the counted
/// size is exactly the length of its wire frame.
pub proof fn lemma_size_is_encoding_len(w: RespSpec)
    requires
        counts_whole(w),
    ensures
        rv_size(w) == encode_spec(w).len(),
    decreases w, 0nat,
{
    match w {
        RespSpec::Array(items) => {
            lemma_size_seq_is_encoding_len(items);
        },
        RespSpec::MultiValue(items) => {
            lemma_size_seq_is_encoding_len(items);
        },
        _ => {},
    }
}

/// The offset law for a run of frames.
proof fn lemma_size_seq_is_encoding_len(items: Seq<RespSpec>)
    requires
        forall|i: int| 0 <= i < items.len() ==> counts_whole(#[trigger] items[i]),
    ensures
        rv_size_seq(items) == encode_elems(items).len(),
    decreases items, 1nat,
{
    if items.len() > 0 {
        lemma_size_is_encoding_len(items.first());
        assert forall|i: int|
            0 <= i < items.drop_first().len() implies counts_whole(
            #[trigger] items.drop_first()[i]) by {
            assert(items.drop_first()[i] == items[i + 1]);
        }
        lemma_size_seq_is_encoding_len(items.drop_first());
    }
}

/// Add with a ceiling at the largest machine count.
fn sat_add(a: usize, b: usize) -> (r: usize)
    ensures
        r == (if a + b <= usize::MAX {
            a + b
        } else {
            usize::MAX as int
        }),
{
    if a <= usize::MAX - b {
        a + b
    } else {
        usize::MAX
    }
}

/// Count the wire size of one value without building its frame; the count
/// tops out at the largest machine count.
pub fn compute_redis_value_size(item: &RedisValueRef) -> (r: usize)
    ensures
        r == (if rv_size(vw(*item)) <= usize::MAX {
            rv_size(vw(*item))
        } else {
            usize::MAX as int
        }),
    decreases *item,
{
    match item {
        RedisValueRef::SimpleString(s) => sat_add(3, s.len()),
        RedisValueRef::Error(e) => sat_add(3, e.len()),
        RedisValueRef::ErrorMsg(_) => 0,
        RedisValueRef::Int(i) => {
            let digits = i64_to_dec(*i);
            sat_add(3, digits.len())
        },
        RedisValueRef::String(s) => {
            let digits = u64_to_dec(s.len() as u64);
            sat_add(sat_add(5, digits.len()), s.len())
        },
        RedisValueRef::NullArray => 5,
        RedisValueRef::NullBulkString => 5,
        RedisValueRef::RDBFile(b) => {
            let digits = u64_to_dec(b.len() as u64);
            sat_add(sat_add(3, digits.len()), b.len())
        },
        RedisValueRef::Array(items) => {
            let digits = u64_to_dec(items.len() as u64);
            let inner = size_of_elems(items);
            sat_add(sat_add(3, digits.len()), inner)
        },
        RedisValueRef::MultiValue(items) => size_of_elems(items),
    }
}

/// Count the wire sizes of a run of values, topping out likewise.
fn size_of_elems(items: &Vec<RedisValueRef>) -> (r: usize)
    ensures
        r == (if rv_size_seq(vws(items@)) <= usize::MAX {
            rv_size_seq(vws(items@))
        } else {
            usize::MAX as int
        }),
    decreases items@,
{
    let ghost ws = vws(items@);
    let mut acc: usize = 0;
    let mut i: usize = 0;
    proof {
        assert(ws.take(0) =~= Seq::<RespSpec>::empty());
    }
    while i < items.len()
        invariant
            0 <= i <= items@.len(),
            ws == vws(items@),
            acc == (if rv_size_seq(ws.take(i as int)) <= usize::MAX {
                rv_size_seq(ws.take(i as int))
            } else {
                usize::MAX as int
            }),
            rv_size_seq(ws.take(i as int)) >= 0,
        decreases items@.len() - i,
    {
        let c = compute_redis_value_size(&items[i]);
        proof {
            lemma_rv_size_seq_push(ws.take(i as int), ws[i as int]);
            assert(ws.take(i + 1) =~= ws.take(i as int).push(ws[i as int]));
            lemma_rv_size_nonneg(ws[i as int]);
        }
        acc = sat_add(acc, c);
        i += 1;
    }
    assert(ws.take(ws.len() as int) =~= ws);
    acc
}

/// A frame count is never negative.
proof fn lemma_rv_size_nonneg(w: RespSpec)
    ensures
        rv_size(w) >= 0,
    decreases w, 0nat,
{
    match w {
        RespSpec::Array(items) => {
            lemma_rv_size_seq_nonneg(items);
        },
        RespSpec::MultiValue(items) => {
            lemma_rv_size_seq_nonneg(items);
        },
        _ => {},
    }
}

/// A run's count is never negative.
proof fn lemma_rv_size_seq_nonneg(items: Seq<RespSpec>)
    ensures
        rv_size_seq(items) >= 0,
    decreases items, 1nat,
{
    if items.len() > 0 {
        lemma_rv_size_nonneg(items.first());
        lemma_rv_size_seq_nonneg(items.drop_first());
    }
}

/// Counting one more frame adds its size.
proof fn lemma_rv_size_seq_push(items: Seq<RespSpec>, w: RespSpec)
    ensures
        rv_size_seq(items.push(w)) == rv_size_seq(items) + rv_size(w),
    decreases items.len(),
{
    if items.len() == 0 {
        assert(items.push(w).drop_first() =~= Seq::<RespSpec>::empty());
        assert(rv_size_seq(items.push(w)) == rv_size(w) + rv_size_seq(
            Seq::<RespSpec>::empty(),
        ));
    } else {
        lemma_rv_size_seq_push(items.drop_first(), w);
        assert(items.push(w).drop_first() =~= items.drop_first().push(w));
        assert(items.push(w).first() == items.first());
    }
}

/// The wire form of a command: its name, then its arguments, as an array
/// of bulk strings.
pub open spec fn cmd_wire(c: CmdSpec) -> RespSpec {
    match c {
        CmdSpec::Ping => RespSpec::Array(seq![RespSpec::String(("PING").spec_bytes())]),
        CmdSpec::Echo(m) => RespSpec::Array(
            seq![RespSpec::String(("ECHO").spec_bytes()), RespSpec::String(m)],
        ),
        CmdSpec::SetCmd(k, v) => RespSpec::Array(
            seq![
                RespSpec::String(("SET").spec_bytes()),
                RespSpec::String(k),
                RespSpec::String(v),
            ],
        ),
        CmdSpec::SetEx(k, v, t) => RespSpec::Array(
            seq![
                RespSpec::String(("SET").spec_bytes()),
                RespSpec::String(k),
                RespSpec::String(v),
                RespSpec::String(("PX").spec_bytes()),
                RespSpec::String(dec_rep(t as nat)),
            ],
        ),
        CmdSpec::Get(k) => RespSpec::Array(
            seq![RespSpec::String(("GET").spec_bytes()), RespSpec::String(k)],
        ),
        CmdSpec::Rpush(k, vs) => RespSpec::Array(
            seq![RespSpec::String(("RPUSH").spec_bytes()), RespSpec::String(k)]
                + Seq::new(vs.len(), |i: int| RespSpec::String(vs[i])),
        ),
        CmdSpec::Lrange(k, a, b) => RespSpec::Array(
            seq![
                RespSpec::String(("LRANGE").spec_bytes()),
                RespSpec::String(k),
                RespSpec::String(dec_rep_i64(a)),
                RespSpec::String(dec_rep_i64(b)),
            ],
        ),
        CmdSpec::Auth(u, p) => RespSpec::Array(
            seq![
                RespSpec::String(("AUTH").spec_bytes()),
                RespSpec::String(u),
                RespSpec::String(p),
            ],
        ),
        CmdSpec::Subscribe(ch) => RespSpec::Array(
            seq![RespSpec::String(("SUBSCRIBE").spec_bytes()), RespSpec::String(ch)],
        ),
        CmdSpec::Unsubscribe(ch) => RespSpec::Array(
            seq![RespSpec::String(("UNSUBSCRIBE").spec_bytes()), RespSpec::String(ch)],
        ),
        CmdSpec::PSubscribe(p) => RespSpec::Array(
            seq![RespSpec::String(("PSUBSCRIBE").spec_bytes()), RespSpec::String(p)],
        ),
        CmdSpec::PUnsubscribe(p) => RespSpec::Array(
            seq![RespSpec::String(("PUNSUBSCRIBE").spec_bytes()), RespSpec::String(p)],
        ),
        CmdSpec::ReplConf(a, b) => RespSpec::Array(
            seq![
                RespSpec::String(("REPLCONF").spec_bytes()),
                RespSpec::String(a),
                RespSpec::String(b),
            ],
        ),
        CmdSpec::Psync(a, b) => RespSpec::Array(
            seq![
                RespSpec::String(("PSYNC").spec_bytes()),
                RespSpec::String(a),
                RespSpec::String(dec_rep_i64(b)),
            ],
        ),
    }
}

/// A command's wire form holds no internal error note.
pub proof fn lemma_cmd_wire_counts(c: CmdSpec)
    ensures
        counts_whole(cmd_wire(c)),
{
    match cmd_wire(c) {
        RespSpec::Array(items) => {
            assert forall|i: int| 0 <= i < items.len() implies counts_whole(
                #[trigger] items[i]) by {
                assert(items[i] matches RespSpec::String(_));
            }
        },
        _ => {},
    }
}

/// Build the wire form of a command.
pub fn cmd_to_value(c: &RedisCommand) -> (r: RedisValueRef)
    ensures
        vw(r) == cmd_wire(cw(*c)),
{
    let mut parts: Vec<RedisValueRef> = Vec::new();
    match c {
        RedisCommand::Ping => {
            parts.push(RedisValueRef::String(("PING").as_bytes_vec()));
            proof {
                assert(vws(parts@) =~= seq![RespSpec::String(("PING").spec_bytes())]);
            }
        },
        RedisCommand::Echo(m) => {
            parts.push(RedisValueRef::String(("ECHO").as_bytes_vec()));
            parts.push(RedisValueRef::String(copy_bytes(m)));
            proof {
                assert(vws(parts@) =~= seq![
                    RespSpec::String(("ECHO").spec_bytes()),
                    RespSpec::String(m@),
                ]);
            }
        },
        RedisCommand::SetCmd(k, v) => {
            parts.push(RedisValueRef::String(("SET").as_bytes_vec()));
            parts.push(RedisValueRef::String(copy_bytes(k)));
            parts.push(RedisValueRef::String(copy_bytes(v)));
            proof {
                assert(vws(parts@) =~= seq![
                    RespSpec::String(("SET").spec_bytes()),
                    RespSpec::String(k@),
                    RespSpec::String(v@),
                ]);
            }
        },
        RedisCommand::SetEx(k, v, t) => {
            parts.push(RedisValueRef::String(("SET").as_bytes_vec()));
            parts.push(RedisValueRef::String(copy_bytes(k)));
            parts.push(RedisValueRef::String(copy_bytes(v)));
            parts.push(RedisValueRef::String(("PX").as_bytes_vec()));
            parts.push(RedisValueRef::String(u64_to_dec(*t)));
            proof {
                assert(vws(parts@) =~= seq![
                    RespSpec::String(("SET").spec_bytes()),
                    RespSpec::String(k@),
                    RespSpec::String(v@),
                    RespSpec::String(("PX").spec_bytes()),
                    RespSpec::String(dec_rep(*t as nat)),
                ]);
            }
        },
        RedisCommand::Get(k) => {
            parts.push(RedisValueRef::String(("GET").as_bytes_vec()));
            parts.push(RedisValueRef::String(copy_bytes(k)));
            proof {
                assert(vws(parts@) =~= seq![
                    RespSpec::String(("GET").spec_bytes()),
                    RespSpec::String(k@),
                ]);
            }
        },
        RedisCommand::Rpush(k, vs) => {
            parts.push(RedisValueRef::String(("RPUSH").as_bytes_vec()));
            parts.push(RedisValueRef::String(copy_bytes(k)));
            let ghost head = vws(parts@);
            let mut tail = crate::lists::strings_reply(vs, 0, vs.len());
            let ghost tailv = vws(tail@);
            proof {
                assert(vs@.subrange(0, vs@.len() as int) =~= vs@);
                assert(tailv == strings_view(vs@));
                assert(head =~= seq![
                    RespSpec::String(("RPUSH").spec_bytes()),
                    RespSpec::String(k@),
                ]);
            }
            let mut j: usize = 0;
            while j < tail.len()
                invariant
                    0 <= j <= tail@.len(),
                    vws(tail@) == tailv,
                    tailv == strings_view(vs@),
                    head == seq![
                        RespSpec::String(("RPUSH").spec_bytes()),
                        RespSpec::String(k@),
                    ],
                    vws(parts@) =~= head + tailv.take(j as int),
                decreases tail@.len() - j,
            {
                let ghost prev = vws(parts@);
                proof {
                    assert(tailv[j as int] matches RespSpec::String(_));
                }
                let elem = crate::parser::copy_value_string(&tail, j);
                let ghost ev = vw(elem);
                proof {
                    assert(ev == tailv[j as int]);
                    assert(prev.len() == head.len() + j);
                }
                parts.push(elem);
                proof {
                    assert forall|m: int| 0 <= m < vws(parts@).len() implies vws(parts@)[m] == (
                    head + tailv.take(j + 1))[m] by {
                        if m < prev.len() {
                            assert(parts@[m] == parts@[m]);
                            assert(vws(parts@)[m] == prev[m]);
                        } else {
                            assert(vw(parts@[m]) == ev);
                        }
                    }
                    assert(vws(parts@) =~= head + tailv.take(j + 1));
                }
                j += 1;
            }
            proof {
                assert(tailv.take(tailv.len() as int) =~= tailv);
                let vss = Seq::new(vs@.len(), |i: int| vs@[i]@);
                assert(Seq::new(vss.len(), |i: int| RespSpec::String(vss[i])) =~= Seq::new(
                    vs@.len(),
                    |i: int| RespSpec::String(vs@[i]@),
                ));
                assert(head + tailv =~= seq![
                    RespSpec::String(("RPUSH").spec_bytes()),
                    RespSpec::String(k@),
                ] + Seq::new(vss.len(), |i: int| RespSpec::String(vss[i])));
                assert(cw(*c) == CmdSpec::Rpush(k@, vss));
                assert(vws(parts@) =~= head + tailv);
            }
        },
        RedisCommand::Lrange(k, a, b) => {
            parts.push(RedisValueRef::String(("LRANGE").as_bytes_vec()));
            parts.push(RedisValueRef::String(copy_bytes(k)));
            parts.push(RedisValueRef::String(i64_to_dec(*a)));
            parts.push(RedisValueRef::String(i64_to_dec(*b)));
            proof {
                assert(vws(parts@) =~= seq![
                    RespSpec::String(("LRANGE").spec_bytes()),
                    RespSpec::String(k@),
                    RespSpec::String(dec_rep_i64(*a as int)),
                    RespSpec::String(dec_rep_i64(*b as int)),
                ]);
            }
        },
        RedisCommand::Auth(u, p) => {
            parts.push(RedisValueRef::String(("AUTH").as_bytes_vec()));
            parts.push(RedisValueRef::String(copy_bytes(u)));
            parts.push(RedisValueRef::String(copy_bytes(p)));
            proof {
                assert(vws(parts@) =~= seq![
                    RespSpec::String(("AUTH").spec_bytes()),
                    RespSpec::String(u@),
                    RespSpec::String(p@),
                ]);
            }
        },
        RedisCommand::Subscribe(ch) => {
            parts.push(RedisValueRef::String(("SUBSCRIBE").as_bytes_vec()));
            parts.push(RedisValueRef::String(copy_bytes(ch)));
            proof {
                assert(vws(parts@) =~= seq![
                    RespSpec::String(("SUBSCRIBE").spec_bytes()),
                    RespSpec::String(ch@),
                ]);
            }
        },
        RedisCommand::Unsubscribe(ch) => {
            parts.push(RedisValueRef::String(("UNSUBSCRIBE").as_bytes_vec()));
            parts.push(RedisValueRef::String(copy_bytes(ch)));
            proof {
                assert(vws(parts@) =~= seq![
                    RespSpec::String(("UNSUBSCRIBE").spec_bytes()),
                    RespSpec::String(ch@),
                ]);
            }
        },
        RedisCommand::PSubscribe(p) => {
            parts.push(RedisValueRef::String(("PSUBSCRIBE").as_bytes_vec()));
            parts.push(RedisValueRef::String(copy_bytes(p)));
            proof {
                assert(vws(parts@) =~= seq![
                    RespSpec::String(("PSUBSCRIBE").spec_bytes()),
                    RespSpec::String(p@),
                ]);
            }
        },
        RedisCommand::PUnsubscribe(p) => {
            parts.push(RedisValueRef::String(("PUNSUBSCRIBE").as_bytes_vec()));
            parts.push(RedisValueRef::String(copy_bytes(p)));
            proof {
                assert(vws(parts@) =~= seq![
                    RespSpec::String(("PUNSUBSCRIBE").spec_bytes()),
                    RespSpec::String(p@),
                ]);
            }
        },
        RedisCommand::ReplConf(a, b) => {
            parts.push(RedisValueRef::String(("REPLCONF").as_bytes_vec()));
            parts.push(RedisValueRef::String(copy_bytes(a)));
            parts.push(RedisValueRef::String(copy_bytes(b)));
            proof {
                assert(vws(parts@) =~= seq![
                    RespSpec::String(("REPLCONF").spec_bytes()),
                    RespSpec::String(a@),
                    RespSpec::String(b@),
                ]);
            }
        },
        RedisCommand::Psync(a, b) => {
            parts.push(RedisValueRef::String(("PSYNC").as_bytes_vec()));
            parts.push(RedisValueRef::String(copy_bytes(a)));
            parts.push(RedisValueRef::String(i64_to_dec(*b)));
            proof {
                assert(vws(parts@) =~= seq![
                    RespSpec::String(("PSYNC").spec_bytes()),
                    RespSpec::String(a@),
                    RespSpec::String(dec_rep_i64(*b as int)),
                ]);
            }
        },
    }
    let ghost pv = vws(parts@);
    let r = RedisValueRef::Array(parts);
    proof {
        assert(vw(r) == RespSpec::Array(pv));
    }
    r
}

/// Whether a command durably mutates user-visible state and so flows to
/// the replicas.
pub open spec fn replicable(c: CmdSpec) -> bool {
    match c {
        CmdSpec::SetCmd(_, _) => true,
        CmdSpec::SetEx(_, _, _) => true,
        CmdSpec::Rpush(_, _) => true,
        _ => false,
    }
}

/// Whether this command flows to the replicas.
pub fn can_replicate(c: &RedisCommand) -> (r: bool)
    ensures
        r == replicable(cw(*c)),
{
    match c {
        RedisCommand::SetCmd(_, _) => true,
        RedisCommand::SetEx(_, _, _) => true,
        RedisCommand::Rpush(_, _) => true,
        _ => false,
    }
}

/// The byte count of a command's wire form: exactly the length of its
/// encoding, topping out at the largest machine count.
pub fn command_bytes(command: &RedisCommand) -> (r: usize)
    ensures
        r == (if encode_spec(cmd_wire(cw(*command))).len() <= usize::MAX {
            encode_spec(cmd_wire(cw(*command))).len() as int
        } else {
            usize::MAX as int
        }),
{
    let v = cmd_to_value(command);
    let n = compute_redis_value_size(&v);
    proof {
        lemma_cmd_wire_counts(cw(*command));
        lemma_size_is_encoding_len(cmd_wire(cw(*command)));
    }
    n
}

/// Count a command into the leader's replication offset when it is
/// replicable: the offset grows by exactly the byte length of the
/// command's wire encoding.
pub fn record_replicable(db: &mut RedisDb, command: &RedisCommand)
    requires
        db_wf(*old(db)),
    ensures
        db_wf(*final(db)),
        final(db).replication_offset == (if replicable(cw(*command)) {
            let n = encode_spec(cmd_wire(cw(*command))).len() as int;
            let m = if n <= usize::MAX {
                n
            } else {
                usize::MAX as int
            };
            if old(db).replication_offset + m <= u64::MAX {
                old(db).replication_offset + m
            } else {
                u64::MAX as int
            }
        } else {
            old(db).replication_offset as int
        }),
        final(db).dict == old(db).dict,
        final(db).ttl == old(db).ttl,
        final(db).waiters == old(db).waiters,
        final(db).stream_waiters == old(db).stream_waiters,
        final(db).pubsub == old(db).pubsub,
        final(db).users == old(db).users,
        final(db).zsets == old(db).zsets,
        final(db).replicas == old(db).replicas,
{
    if can_replicate(command) {
        let n = command_bytes(command);
        let add = n as u64;
        if db.replication_offset <= u64::MAX - add {
            db.replication_offset = db.replication_offset + add;
        } else {
            db.replication_offset = u64::MAX;
        }
    }
}

/// Record a replica's acknowledgement: the named replica's delivered
/// offset becomes the acknowledged one.
pub fn replica_ack_update(db: &mut RedisDb, id: &[u8], offset: u64)
    requires
        db_wf(*old(db)),
    ensures
        db_wf(*final(db)),
        final(db).replicas@.len() == old(db).replicas@.len(),
        forall|i: int|
            0 <= i < final(db).replicas@.len() ==> #[trigger] final(db).replicas@[i].id == old(
                db,
            ).replicas@[i].id && final(db).replicas@[i].offset == (if old(
                db,
            ).replicas@[i].id@ == id@ {
                offset
            } else {
                old(db).replicas@[i].offset
            }),
        final(db).dict == old(db).dict,
        final(db).ttl == old(db).ttl,
        final(db).replication_offset == old(db).replication_offset,
{
    let mut i: usize = 0;
    while i < db.replicas.len()
        invariant
            0 <= i <= db.replicas@.len(),
            db_wf(*db),
            db.replicas@.len() == old(db).replicas@.len(),
            forall|j: int|
                0 <= j < db.replicas@.len() ==> #[trigger] db.replicas@[j].id == old(
                    db,
                ).replicas@[j].id,
            forall|j: int|
                0 <= j < i ==> #[trigger] db.replicas@[j].offset == (if old(
                    db,
                ).replicas@[j].id@ == id@ {
                    offset
                } else {
                    old(db).replicas@[j].offset
                }),
            forall|j: int|
                i <= j < db.replicas@.len() ==> #[trigger] db.replicas@[j].offset == old(
                    db,
                ).replicas@[j].offset,
            db.dict == old(db).dict,
            db.ttl == old(db).ttl,
            db.waiters == old(db).waiters,
            db.stream_waiters == old(db).stream_waiters,
            db.pubsub == old(db).pubsub,
            db.users == old(db).users,
            db.zsets == old(db).zsets,
            db.replication_offset == old(db).replication_offset,
            db.replication_id == old(db).replication_id,
            db.dir == old(db).dir,
            db.dbfilename == old(db).dbfilename,
        decreases db.replicas@.len() - i,
    {
        if crate::util::bytes_eq(db.replicas[i].id.as_slice(), id) {
            let ghost rs_before = db.replicas@;
            let old_r = db.replicas.remove(i);
            db.replicas.insert(i, Replica { id: old_r.id, offset });
            proof {
                assert(db.replicas@ =~= rs_before.update(
                    i as int,
                    Replica { id: rs_before[i as int].id, offset },
                ));
            }
        }
        i += 1;
    }
}

/// How many replicas have acknowledged at least `target` bytes.
pub open spec fn acked_count(rs: Seq<Replica>, target: u64) -> int
    decreases rs.len(),
{
    if rs.len() == 0 {
        0
    } else {
        (if rs.first().offset >= target {
            1int
        } else {
            0int
        }) + acked_count(rs.drop_first(), target)
    }
}

/// Count the replicas whose acknowledged offset has reached `target`.
pub fn wait_count(db: &RedisDb, target: u64) -> (r: usize)
    ensures
        r == acked_count(db.replicas@, target),
{
    let ghost rs = db.replicas@;
    proof {
        lemma_acked_count_bounds(rs, target);
    }
    let mut count: usize = 0;
    let mut i: usize = 0;
    while i < db.replicas.len()
        invariant
            0 <= i <= rs.len(),
            db.replicas@ == rs,
            count == acked_count(rs.take(i as int), target),
            0 <= count <= i,
        decreases rs.len() - i,
    {
        proof {
            lemma_acked_count_push(rs.take(i as int), rs[i as int], target);
            assert(rs.take(i + 1) =~= rs.take(i as int).push(rs[i as int]));
            lemma_acked_count_bounds(rs.take(i as int), target);
        }
        if db.replicas[i].offset >= target {
            count += 1;
        }
        i += 1;
    }
    assert(rs.take(rs.len() as int) =~= rs);
    count
}

/// A count of acknowledged replicas stays between zero and the registry's
/// size.
proof fn lemma_acked_count_bounds(rs: Seq<Replica>, target: u64)
    ensures
        0 <= acked_count(rs, target) <= rs.len(),
    decreases rs.len(),
{
    if rs.len() > 0 {
        lemma_acked_count_bounds(rs.drop_first(), target);
    }
}

/// The quiescent count: once every replica has acknowledged at least the
/// target — as happens after a quiet period when all acknowledgements
/// have arrived — a wait on that target counts the whole registry; and
/// the whole registry is counted only then.
pub proof fn lemma_wait_quiescent(rs: Seq<Replica>, target: u64)
    ensures
        (forall|i: int| 0 <= i < rs.len() ==> #[trigger] rs[i].offset >= target)
            <==> acked_count(rs, target) == rs.len(),
    decreases rs.len(),
{
    lemma_acked_count_bounds(rs, target);
    if rs.len() > 0 {
        lemma_wait_quiescent(rs.drop_first(), target);
        lemma_acked_count_bounds(rs.drop_first(), target);
        assert forall|i: int|
            0 <= i < rs.drop_first().len() implies rs.drop_first()[i] == rs[i + 1] by {}
        if acked_count(rs, target) == rs.len() {
            assert(rs.first().offset >= target);
            assert forall|i: int| 0 <= i < rs.len() implies #[trigger] rs[i].offset
                >= target by {
                if i > 0 {
                    assert(rs[i] == rs.drop_first()[i - 1]);
                }
            }
        }
        if forall|i: int| 0 <= i < rs.len() ==> #[trigger] rs[i].offset >= target {
            assert(rs.first() == rs[0]);
        }
    }
}

/// Counting one more replica adds at most one.
proof fn lemma_acked_count_push(rs: Seq<Replica>, r: Replica, target: u64)
    ensures
        acked_count(rs.push(r), target) == acked_count(rs, target) + (if r.offset >= target {
            1int
        } else {
            0int
        }),
    decreases rs.len(),
{
    if rs.len() == 0 {
        assert(rs.push(r).drop_first() =~= Seq::<Replica>::empty());
        assert(acked_count(Seq::<Replica>::empty(), target) == 0);
        assert(rs =~= Seq::<Replica>::empty());
    } else {
        lemma_acked_count_push(rs.drop_first(), r, target);
        assert(rs.push(r).drop_first() =~= rs.drop_first().push(r));
        assert(rs.push(r).first() == rs.first());
    }
}

/// One inbound command on the replica side: the reply owed, and the
/// received counter moved past the command — by exactly its encoded size.
/// A GETACK reports the counter before its own bytes are counted.
pub fn replica_step(command: &RedisCommand, received_offset: u64) -> (r: (
    Option<RedisValueRef>,
    u64,
))
    ensures
        ({
            let n = encode_spec(cmd_wire(cw(*command))).len() as int;
            let m = if n <= usize::MAX {
                n
            } else {
                usize::MAX as int
            };
            &&& r.1 == (if received_offset + m <= u64::MAX {
                received_offset + m
            } else {
                u64::MAX as int
            })
            &&& (match cw(*command) {
                CmdSpec::ReplConf(k, _) => r.0 matches Some(v) && vw(v) == (if k == (
                "GETACK").spec_bytes() {
                    cmd_wire(
                        CmdSpec::ReplConf(
                            ("ACK").spec_bytes(),
                            dec_rep(received_offset as nat),
                        ),
                    )
                } else {
                    RespSpec::SimpleString(("OK").spec_bytes())
                }),
                _ => r.0 is None,
            })
        }),
{
    let n = command_bytes(command);
    let add = n as u64;
    let new_offset: u64 = if received_offset <= u64::MAX - add {
        received_offset + add
    } else {
        u64::MAX
    };
    let reply: Option<RedisValueRef> = match command {
        RedisCommand::ReplConf(k, _) => {
            if crate::util::bytes_eq(k.as_slice(), ("GETACK").as_bytes()) {
                let ack = RedisCommand::ReplConf(
                    ("ACK").as_bytes_vec(),
                    u64_to_dec(received_offset),
                );
                Some(cmd_to_value(&ack))
            } else {
                Some(RedisValueRef::SimpleString(("OK").as_bytes_vec()))
            }
        },
        _ => None,
    };
    (reply, new_offset)
}

/// What the outside decoder yields for a base64 text; it depends on the
/// text alone.
pub uninterp spec fn b64_decode_of(s: Seq<u8>) -> Seq<u8>;

/// Relies on base64's standard-alphabet engine: decoding yields the bytes
/// the text spells, a function of the text alone, or fails on a malformed
/// text.  The canonical snapshot text is well-formed standard base64
/// (alphabet characters in whole quads, `=`-padded), so decoding it
/// succeeds.
#[verifier::external_body]
fn b64_decode(s: &[u8]) -> (r: Option<Vec<u8>>)
    ensures
        r matches Some(b) ==> b@ == b64_decode_of(s@),
        s@ == empty_snapshot_text() ==> r is Some,
{
    match base64::engine::general_purpose::STANDARD.decode(s) {
        Ok(b) => Some(b),
        Err(_) => None,
    }
}

/// The full-resync preamble: the resync banner with this leader's
/// identifier and offset, then the canonical empty snapshot as a raw
/// frame.
pub fn psync_preamble(db: &RedisDb, _id: &[u8], _offset: i64) -> (r: RedisValueRef)
    ensures
        vw(r) == RespSpec::MultiValue(
            seq![
                RespSpec::SimpleString(
                    ("FULLRESYNC ").spec_bytes() + db.replication_id@ + (" ").spec_bytes()
                        + dec_rep(db.replication_offset as nat),
                ),
                RespSpec::RDBFile(b64_decode_of(empty_snapshot_text())),
            ],
        ),
{
    let mut banner = ("FULLRESYNC ").as_bytes_vec();
    extend_bytes(&mut banner, &db.replication_id);
    let sep = (" ").as_bytes_vec();
    extend_bytes(&mut banner, &sep);
    let digits = u64_to_dec(db.replication_offset);
    extend_bytes(&mut banner, &digits);
    proof {
        assert(banner@ =~= ("FULLRESYNC ").spec_bytes() + db.replication_id@ + (
        " ").spec_bytes() + dec_rep(db.replication_offset as nat));
    }
    let text = empty_snapshot();
    let mut parts: Vec<RedisValueRef> = Vec::new();
    let ghost bv = banner@;
    parts.push(RedisValueRef::SimpleString(banner));
    match b64_decode(text.as_slice()) {
        Some(payload) => {
            let ghost pv = payload@;
            parts.push(RedisValueRef::RDBFile(payload));
            proof {
                assert(vws(parts@) =~= seq![
                    RespSpec::SimpleString(bv),
                    RespSpec::RDBFile(pv),
                ]);
            }
            RedisValueRef::MultiValue(parts)
        },
        None => {
            proof {
                assert(false);
            }
            RedisValueRef::MultiValue(parts)
        },
    }
}

/// The base64 text of the canonical empty snapshot.
pub open spec fn empty_snapshot_text() -> Seq<u8> {
    ("UkVESVMwMDEx+glyZWRpcy12ZXIFNy4yLjD6CnJlZGlzLWJpdHPAQPoFY3RpbWXCbQi8ZfoIdXNlZC1tZW3CsMQQAPoIYW9mLWJhc2XAAP/wbjv+wP9aog==").spec_bytes()
}

/// The base64 text of the canonical empty snapshot, as bytes.
fn empty_snapshot() -> (r: Vec<u8>)
    ensures
        r@ == empty_snapshot_text(),
{
    ("UkVESVMwMDEx+glyZWRpcy12ZXIFNy4yLjD6CnJlZGlzLWJpdHPAQPoFY3RpbWXCbQi8ZfoIdXNlZC1tZW3CsMQQAPoIYW9mLWJhc2XAAP/wbjv+wP9aog==").as_bytes_vec()
}

/// The message the follower sends at each handshake step: the liveness
/// probe, its listening port, its capability, then the resync request.
pub fn handshake_request(step: usize, port: u64) -> (r: Option<RedisValueRef>)
    ensures
        match step {
            0 => r matches Some(v) && vw(v) == cmd_wire(CmdSpec::Ping),
            1 => r matches Some(v) && vw(v) == cmd_wire(
                CmdSpec::ReplConf(("listening-port").spec_bytes(), dec_rep(port as nat)),
            ),
            2 => r matches Some(v) && vw(v) == cmd_wire(
                CmdSpec::ReplConf(("capa").spec_bytes(), ("psync2").spec_bytes()),
            ),
            3 => r matches Some(v) && vw(v) == cmd_wire(CmdSpec::Psync(("?").spec_bytes(), -1)),
            _ => r is None,
        },
{
    if step == 0 {
        Some(cmd_to_value(&RedisCommand::Ping))
    } else if step == 1 {
        Some(
            cmd_to_value(
                &RedisCommand::ReplConf(("listening-port").as_bytes_vec(), u64_to_dec(port)),
            ),
        )
    } else if step == 2 {
        Some(
            cmd_to_value(
                &RedisCommand::ReplConf(("capa").as_bytes_vec(), ("psync2").as_bytes_vec()),
            ),
        )
    } else if step == 3 {
        Some(cmd_to_value(&RedisCommand::Psync(("?").as_bytes_vec(), -1)))
    } else {
        None
    }
}

/// Whether the leader's reply closes a handshake step: the probe wants the
/// pong, the configuration steps want the acknowledgement, and the resync
/// request is answered by the banner that follows.
pub fn handshake_reply_ok(step: usize, resp: &RedisValueRef) -> (r: bool)
    ensures
        r == (match step {
            0 => (match *resp {
                RedisValueRef::String(s) => s@ == ("PONG").spec_bytes(),
                RedisValueRef::SimpleString(s) => s@ == ("PONG").spec_bytes(),
                _ => false,
            }),
            1 | 2 => (match *resp {
                RedisValueRef::String(s) => s@ == ("OK").spec_bytes(),
                RedisValueRef::SimpleString(s) => s@ == ("OK").spec_bytes(),
                _ => false,
            }),
            _ => true,
        }),
{
    if step == 0 {
        match resp {
            RedisValueRef::String(s) => crate::util::bytes_eq(s.as_slice(), ("PONG").as_bytes()),
            RedisValueRef::SimpleString(s) => crate::util::bytes_eq(
                s.as_slice(),
                ("PONG").as_bytes(),
            ),
            _ => false,
        }
    } else if step == 1 || step == 2 {
        match resp {
            RedisValueRef::String(s) => crate::util::bytes_eq(s.as_slice(), ("OK").as_bytes()),
            RedisValueRef::SimpleString(s) => crate::util::bytes_eq(
                s.as_slice(),
                ("OK").as_bytes(),
            ),
            _ => false,
        }
    } else {
        true
    }
}

} // verus!
