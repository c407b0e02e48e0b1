//! List commands: push at either end, ranged reads with the clamp-and-slice
//! index rules, pops, and the waiter-matching procedure that hands pushed
//! values to blocked readers in arrival order.
use vstd::prelude::*;
use vstd::string::*;

use crate::parser::{copy_bytes, RedisValueRef, RespSpec, vw};
use crate::table::{tbl_get, tbl_remove, tbl_set, tbl_take, tbl_wf};
use crate::util::now_millis;
use crate::{
    db_wf, dict_entries_from, expired_at, lemma_dict_streams_wf, lemma_entries_from_trans,
    same_registries, RedisDb, RedisValue,
};

verus! {

/// The wire shape of a run of byte strings: one bulk string each.
pub open spec fn strings_view(l: Seq<Vec<u8>>) -> Seq<RespSpec> {
    Seq::new(l.len(), |i: int| RespSpec::String(l[i]@))
}

/// An integer reply carrying a length, clipped into the wire integer range
/// exactly as the code's cast clips it.
pub open spec fn len_reply(n: int) -> RespSpec {
    RespSpec::Int(n as i64 as int)
}

/// One index of the inclusive range rule: a negative index counts from
/// the end; nothing is clamped yet.
pub open spec fn norm_index(i: int, len: int) -> int {
    if i < 0 {
        i + len
    } else {
        i
    }
}

/// The clamp of the inclusive range rule: the normalized start floored at
/// zero, the normalized stop ceiled at the last element; no element is
/// selected when the normalized start reaches the length or the range
/// inverts.
pub open spec fn range_bounds_spec(len: int, start: int, stop: int) -> Option<(int, int)> {
    let ns = norm_index(start, len);
    let ne = norm_index(stop, len);
    let s = if ns < 0 {
        0
    } else {
        ns
    };
    let e = if ne > len - 1 {
        len - 1
    } else {
        ne
    };
    if ns >= len || s > e {
        None
    } else {
        Some((s, e))
    }
}

/// The language-neutral clamp-and-slice: what `LRANGE start stop` returns
/// of a list of length `l.len()`.
pub open spec fn lrange_spec(l: Seq<Vec<u8>>, start: int, stop: int) -> Seq<Vec<u8>> {
    match range_bounds_spec(l.len() as int, start, stop) {
        Some((s, e)) => l.subrange(s, e + 1),
        None => Seq::empty(),
    }
}

/// Move every element of `src`, in order, onto the back of `dst`.
fn append_all(dst: &mut Vec<Vec<u8>>, src: &mut Vec<Vec<u8>>)
    ensures
        final(dst)@ == old(dst)@ + old(src)@,
        final(src)@.len() == 0,
{
    while src.len() > 0
        invariant
            dst@ + src@ == old(dst)@ + old(src)@,
        decreases src@.len(),
    {
        let ghost d0 = dst@;
        let ghost s0 = src@;
        let x = src.remove(0);
        dst.push(x);
        assert(dst@ + src@ =~= d0 + s0);
    }
    assert(dst@ + src@ =~= dst@);
}

/// Move every element of `src` onto the front of `dst`, one after another,
/// so the last element of `src` ends up at the head.
fn prepend_all(dst: &mut Vec<Vec<u8>>, src: &mut Vec<Vec<u8>>)
    ensures
        final(dst)@ == old(src)@.reverse() + old(dst)@,
        final(src)@.len() == 0,
{
    while src.len() > 0
        invariant
            src@.reverse() + dst@ == old(src)@.reverse() + old(dst)@,
        decreases src@.len(),
    {
        let ghost d0 = dst@;
        let ghost s0 = src@;
        let x = src.remove(0);
        dst.insert(0, x);
        assert(s0.reverse() =~= s0.drop_first().reverse().push(s0[0]));
        assert(src@.reverse() + dst@ =~= s0.reverse() + d0);
    }
    assert(src@.reverse() =~= Seq::<Vec<u8>>::empty());
    assert(src@.reverse() + dst@ =~= dst@);
}

/// The value a key reads as before a write touches it: an expired key
/// reads as absent.
pub open spec fn prior_value(pre: RedisDb, k: Seq<u8>, now: u64) -> Option<RedisValue> {
    if expired_at(pre, k, now) {
        None
    } else {
        tbl_get(pre.dict@, k)
    }
}

/// What a push at either end replies and leaves behind: the new length on
/// a list or a fresh key — with any stale deadline dropped first — and a
/// wrong-kind error with no change on anything else.
pub open spec fn push_outcome(
    pre: RedisDb,
    post: RedisDb,
    r: RedisValueRef,
    k: Seq<u8>,
    newlist: Option<Seq<Vec<u8>>>,
    now: u64,
) -> bool {
    match newlist {
        Some(nl) => {
            &&& tbl_get(post.dict@, k) matches Some(v) && v matches RedisValue::List(l2) && l2@
                == nl
            &&& vw(r) == len_reply(nl.len() as int)
            &&& forall|k2: Seq<u8>| k2 != k ==> #[trigger] tbl_get(post.dict@, k2) == tbl_get(
                pre.dict@,
                k2,
            )
            &&& (if expired_at(pre, k, now) {
                &&& tbl_get(post.ttl@, k) is None
                &&& forall|k2: Seq<u8>| k2 != k ==> #[trigger] tbl_get(post.ttl@, k2)
                    == tbl_get(pre.ttl@, k2)
            } else {
                post.ttl == pre.ttl
            })
            &&& same_registries(post, pre)
        },
        None => {
            &&& post == pre
            &&& vw(r) == RespSpec::Error(
                ("WRONGTYPE Operation against a key holding the wrong kind of value")
                    .spec_bytes(),
            )
        },
    }
}

/// The list a right push leaves under `k`: the surviving elements, then
/// the new ones, or just the new ones on an absent or expired key; no
/// list on a wrong kind.
pub open spec fn rpush_result(pre: RedisDb, k: Seq<u8>, vs: Seq<Vec<u8>>, now: u64) -> Option<
    Seq<Vec<u8>>,
> {
    match prior_value(pre, k, now) {
        Some(RedisValue::List(l)) => Some(l@ + vs),
        Some(_) => None,
        None => Some(vs),
    }
}

/// The list a left push leaves under `k`: the new elements reversed, then
/// the surviving ones; each pushed element lands at the head in turn.
pub open spec fn lpush_result(pre: RedisDb, k: Seq<u8>, vs: Seq<Vec<u8>>, now: u64) -> Option<
    Seq<Vec<u8>>,
> {
    match prior_value(pre, k, now) {
        Some(RedisValue::List(l)) => Some(vs.reverse() + l@),
        Some(_) => None,
        None => Some(vs.reverse()),
    }
}

/// Append `value` to the list under `key` as of `now`, expiring the key
/// lazily first and creating the list if it is absent; reply with the new
/// length, or a wrong-kind error.
pub fn rpush_at(db: &mut RedisDb, key: Vec<u8>, value: Vec<Vec<u8>>, now: u64) -> (r:
    RedisValueRef)
    requires
        db_wf(*old(db)),
    ensures
        db_wf(*final(db)),
        push_outcome(
            *old(db),
            *final(db),
            r,
            key@,
            rpush_result(*old(db), key@, value@, now),
            now,
        ),
{
    expire_key(db, key.as_slice(), now);
    let ghost d0 = db.dict@;
    let wrong_kind = match crate::table::tbl_get_ref(&db.dict, key.as_slice()) {
        Some(RedisValue::List(_)) => false,
        Some(_) => true,
        None => false,
    };
    if wrong_kind {
        return RedisValueRef::Error(
            ("WRONGTYPE Operation against a key holding the wrong kind of value")
                .as_bytes_vec(),
        );
    }
    let mut value = value;
    match tbl_take(&mut db.dict, key.as_slice()) {
        Some(RedisValue::List(mut list)) => {
            let ghost d1 = db.dict@;
            append_all(&mut list, &mut value);
            let n = list.len();
            let nv = RedisValue::List(list);
            let ghost nvg = nv;
            tbl_set(&mut db.dict, key.as_slice(), nv);
            proof {
                crate::lemma_from_take(d0, d1);
                crate::lemma_from_step(d1, db.dict@, nvg);
                lemma_entries_from_trans(d0, d1, db.dict@);
                lemma_dict_streams_wf(d0, db.dict@);
            }
            RedisValueRef::Int(n as i64)
        },
        Some(other) => {
            proof {
                assert(false);
            }
            RedisValueRef::NullBulkString
        },
        None => {
            let ghost d1 = db.dict@;
            let n = value.len();
            let nv = RedisValue::List(value);
            let ghost nvg = nv;
            tbl_set(&mut db.dict, key.as_slice(), nv);
            proof {
                crate::lemma_from_take(d0, d1);
                crate::lemma_from_step(d1, db.dict@, nvg);
                lemma_entries_from_trans(d0, d1, db.dict@);
                lemma_dict_streams_wf(d0, db.dict@);
            }
            RedisValueRef::Int(n as i64)
        },
    }
}

/// Append `value` to the list under `key` as of the wall clock.
pub fn rpush(db: &mut RedisDb, key: Vec<u8>, value: Vec<Vec<u8>>) -> (r: RedisValueRef)
    requires
        db_wf(*old(db)),
    ensures
        db_wf(*final(db)),
        exists|now: u64|
            #[trigger] push_outcome(
                *old(db),
                *final(db),
                r,
                key@,
                rpush_result(*old(db), key@, value@, now),
                now,
            ),
{
    let ghost pre = *db;
    let ghost vg = value@;
    let now = now_millis();
    let r = rpush_at(db, key, value, now);
    proof {
        assert(push_outcome(pre, *db, r, key@, rpush_result(pre, key@, vg, now), now));
    }
    r
}

/// Push each of `value` onto the head of the list under `key` as of
/// `now`, expiring the key lazily first, so the last argument ends up
/// first; reply with the new length, or a wrong-kind error.
pub fn lpush_at(db: &mut RedisDb, key: Vec<u8>, value: Vec<Vec<u8>>, now: u64) -> (r:
    RedisValueRef)
    requires
        db_wf(*old(db)),
    ensures
        db_wf(*final(db)),
        push_outcome(
            *old(db),
            *final(db),
            r,
            key@,
            lpush_result(*old(db), key@, value@, now),
            now,
        ),
{
    expire_key(db, key.as_slice(), now);
    let ghost d0 = db.dict@;
    let wrong_kind = match crate::table::tbl_get_ref(&db.dict, key.as_slice()) {
        Some(RedisValue::List(_)) => false,
        Some(_) => true,
        None => false,
    };
    if wrong_kind {
        return RedisValueRef::Error(
            ("WRONGTYPE Operation against a key holding the wrong kind of value")
                .as_bytes_vec(),
        );
    }
    let mut value = value;
    match tbl_take(&mut db.dict, key.as_slice()) {
        Some(RedisValue::List(mut list)) => {
            let ghost d1 = db.dict@;
            prepend_all(&mut list, &mut value);
            let n = list.len();
            let nv = RedisValue::List(list);
            let ghost nvg = nv;
            tbl_set(&mut db.dict, key.as_slice(), nv);
            proof {
                crate::lemma_from_take(d0, d1);
                crate::lemma_from_step(d1, db.dict@, nvg);
                lemma_entries_from_trans(d0, d1, db.dict@);
                lemma_dict_streams_wf(d0, db.dict@);
            }
            RedisValueRef::Int(n as i64)
        },
        Some(other) => {
            proof {
                assert(false);
            }
            RedisValueRef::NullBulkString
        },
        None => {
            let ghost d1 = db.dict@;
            let mut list: Vec<Vec<u8>> = Vec::new();
            prepend_all(&mut list, &mut value);
            let n = list.len();
            let nv = RedisValue::List(list);
            let ghost nvg = nv;
            tbl_set(&mut db.dict, key.as_slice(), nv);
            proof {
                crate::lemma_from_take(d0, d1);
                crate::lemma_from_step(d1, db.dict@, nvg);
                lemma_entries_from_trans(d0, d1, db.dict@);
                lemma_dict_streams_wf(d0, db.dict@);
                assert(value@.reverse() + Seq::<Vec<u8>>::empty() =~= value@.reverse());
            }
            RedisValueRef::Int(n as i64)
        },
    }
}

/// Push each of `value` onto the head of the list under `key` as of the
/// wall clock.
pub fn lpush(db: &mut RedisDb, key: Vec<u8>, value: Vec<Vec<u8>>) -> (r: RedisValueRef)
    requires
        db_wf(*old(db)),
    ensures
        db_wf(*final(db)),
        exists|now: u64|
            #[trigger] push_outcome(
                *old(db),
                *final(db),
                r,
                key@,
                lpush_result(*old(db), key@, value@, now),
                now,
            ),
{
    let ghost pre = *db;
    let ghost vg = value@;
    let now = now_millis();
    let r = lpush_at(db, key, value, now);
    proof {
        assert(push_outcome(pre, *db, r, key@, lpush_result(pre, key@, vg, now), now));
    }
    r
}

/// Drop `key`'s value and deadline when the deadline has passed: the
/// lazy-expiration step every accessor performs first.
fn expire_key(db: &mut RedisDb, key: &[u8], now: u64)
    requires
        db_wf(*old(db)),
    ensures
        db_wf(*final(db)),
        tbl_get(final(db).dict@, key@) == prior_value(*old(db), key@, now),
        tbl_get(final(db).ttl@, key@) == (if expired_at(*old(db), key@, now) {
            None::<u64>
        } else {
            tbl_get(old(db).ttl@, key@)
        }),
        forall|k2: Seq<u8>| k2 != key@ ==> #[trigger] tbl_get(final(db).dict@, k2) == tbl_get(
            old(db).dict@,
            k2,
        ),
        forall|k2: Seq<u8>| k2 != key@ ==> #[trigger] tbl_get(final(db).ttl@, k2) == tbl_get(
            old(db).ttl@,
            k2,
        ),
        same_registries(*final(db), *old(db)),
        !expired_at(*old(db), key@, now) ==> *final(db) == *old(db),
{
    let expired = match crate::table::tbl_get_ref(&db.ttl, key) {
        Some(e) => *e < now,
        None => false,
    };
    if expired {
        let ghost d0 = db.dict@;
        tbl_remove(&mut db.dict, key);
        let ghost dmid = db.dict@;
        tbl_remove(&mut db.ttl, key);
        proof {
            assert(db.dict@ == dmid);
            crate::lemma_from_take(d0, dmid);
            lemma_dict_streams_wf(d0, dmid);
        }
    }
}

/// Render the elements of `l` between `from` and `to` as bulk strings.
pub fn strings_reply(l: &Vec<Vec<u8>>, from: usize, to: usize) -> (r: Vec<RedisValueRef>)
    requires
        from <= to <= l@.len(),
    ensures
        crate::parser::vws(r@) == strings_view(l@.subrange(from as int, to as int)),
{
    let ghost target = strings_view(l@.subrange(from as int, to as int));
    let mut items: Vec<RedisValueRef> = Vec::new();
    let mut j: usize = from;
    while j < to
        invariant
            from <= j <= to <= l@.len(),
            target == strings_view(l@.subrange(from as int, to as int)),
            crate::parser::vws(items@) =~= target.take(j - from),
        decreases to - j,
    {
        let ghost prev = items@;
        let c = copy_bytes(&l[j]);
        let elem = RedisValueRef::String(c);
        let ghost ev = vw(elem);
        proof {
            assert(ev == RespSpec::String(l@[j as int]@));
            assert(crate::parser::vws(prev).len() == j - from);
        }
        items.push(elem);
        proof {
            assert(items@.len() == j - from + 1);
            assert(vw(items@[j - from]) == ev);
            assert forall|m: int| 0 <= m < j - from + 1 implies crate::parser::vws(items@)[m]
                == target.take(j - from + 1)[m] by {
                if m < j - from {
                    assert(items@[m] == prev[m]);
                    assert(crate::parser::vws(prev)[m] == target.take(j - from)[m]);
                } else {
                    assert(target.take(j - from + 1)[m] == RespSpec::String(
                        l@.subrange(from as int, to as int)[m]@,
                    ));
                    assert(l@.subrange(from as int, to as int)[m] == l@[j as int]);
                }
            }
            assert(crate::parser::vws(items@) =~= target.take(j - from + 1));
        }
        j += 1;
    }
    assert(target.take(target.len() as int) =~= target);
    items
}

/// The clamped inclusive bounds of a range request, decided in code, or
/// nothing when the request selects no element.
pub fn lrange_bounds(len: usize, start: i64, stop: i64) -> (r: Option<(usize, usize)>)
    ensures
        match range_bounds_spec(len as int, start as int, stop as int) {
            Some((s, e)) => r matches Some(p) && p.0 == s && p.1 == e && p.0 <= p.1 < len,
            None => r is None,
        },
{
    let ns: i128 = if start < 0 {
        start as i128 + len as i128
    } else {
        start as i128
    };
    let ne: i128 = if stop < 0 {
        stop as i128 + len as i128
    } else {
        stop as i128
    };
    let s: i128 = if ns < 0 {
        0
    } else {
        ns
    };
    let e: i128 = if ne > len as i128 - 1 {
        len as i128 - 1
    } else {
        ne
    };
    if ns >= len as i128 || s > e {
        None
    } else {
        Some((s as usize, e as usize))
    }
}

/// Read the inclusive sub-range of the list under `key` as of `now`: the
/// clamp-and-slice rule decides which elements; an absent, expired or
/// non-list key reads as an empty array.
pub fn lrange_at(db: &RedisDb, key: &[u8], start: i64, stop: i64, now: u64) -> (r:
    RedisValueRef)
    ensures
        vw(r) == RespSpec::Array(
            (if !expired_at(*db, key@, now) {
                match tbl_get(db.dict@, key@) {
                    Some(RedisValue::List(l)) => strings_view(lrange_spec(l@, start as int,
                    stop as int)),
                    _ => Seq::<RespSpec>::empty(),
                }
            } else {
                Seq::<RespSpec>::empty()
            }),
        ),
{
    let expired = match crate::table::tbl_get_ref(&db.ttl, key) {
        Some(e) => *e < now,
        None => false,
    };
    if !expired {
        match crate::table::tbl_get_ref(&db.dict, key) {
            Some(RedisValue::List(list)) => {
                let ghost l = list@;
                let ghost slice = lrange_spec(l, start as int, stop as int);
                let len = list.len();
                match lrange_bounds(len, start, stop) {
                    Some((s, e)) => {
                        let items = strings_reply(list, s, e + 1);
                        assert(slice == l.subrange(s as int, e + 1));
                        RedisValueRef::Array(items)
                    },
                    None => {
                        let r = RedisValueRef::Array(Vec::new());
                        assert(crate::parser::vws(Seq::<RedisValueRef>::empty())
                            =~= strings_view(slice));
                        r
                    },
                }
            },
            _ => {
                let r = RedisValueRef::Array(Vec::new());
                assert(crate::parser::vws(Seq::<RedisValueRef>::empty())
                    =~= Seq::<RespSpec>::empty());
                r
            },
        }
    } else {
        let r = RedisValueRef::Array(Vec::new());
        assert(crate::parser::vws(Seq::<RedisValueRef>::empty()) =~= Seq::<RespSpec>::empty());
        r
    }
}

/// Read the inclusive sub-range of the list under `key` as of the wall
/// clock.
pub fn lrange(db: &RedisDb, key: &[u8], start: i64, stop: i64) -> (r: RedisValueRef)
    ensures
        exists|now: u64|
            vw(r) == RespSpec::Array(
                (if !expired_at(*db, key@, now) {
                    match tbl_get(db.dict@, key@) {
                        Some(RedisValue::List(l)) => strings_view(
                            lrange_spec(l@, start as int, stop as int),
                        ),
                        _ => Seq::<RespSpec>::empty(),
                    }
                } else {
                    Seq::<RespSpec>::empty()
                }),
            ),
{
    let now = now_millis();
    let r = lrange_at(db, key, start, stop, now);
    proof {
        let ghost w = now;
        assert(vw(r) == RespSpec::Array(
            (if !expired_at(*db, key@, w) {
                match tbl_get(db.dict@, key@) {
                    Some(RedisValue::List(l)) => strings_view(
                        lrange_spec(l@, start as int, stop as int),
                    ),
                    _ => Seq::<RespSpec>::empty(),
                }
            } else {
                Seq::<RespSpec>::empty()
            }),
        ));
    }
    r
}

/// The length of the list under `key` as of `now`: zero for an absent or
/// expired key, a wrong-kind error for any other kind.
pub fn llen_at(db: &RedisDb, key: &[u8], now: u64) -> (r: RedisValueRef)
    ensures
        vw(r) == (if !expired_at(*db, key@, now) {
            match tbl_get(db.dict@, key@) {
                Some(RedisValue::List(l)) => len_reply(l@.len() as int),
                Some(_) => RespSpec::Error(
                    ("WRONGTYPE Operation against a key holding the wrong kind of value")
                        .spec_bytes(),
                ),
                None => RespSpec::Int(0),
            }
        } else {
            RespSpec::Int(0)
        }),
{
    let expired = match crate::table::tbl_get_ref(&db.ttl, key) {
        Some(e) => *e < now,
        None => false,
    };
    if expired {
        return RedisValueRef::Int(0);
    }
    match crate::table::tbl_get_ref(&db.dict, key) {
        Some(RedisValue::List(list)) => RedisValueRef::Int(list.len() as i64),
        Some(_) => RedisValueRef::Error(
            ("WRONGTYPE Operation against a key holding the wrong kind of value").as_bytes_vec(),
        ),
        None => RedisValueRef::Int(0),
    }
}

/// The length of the list under `key` as of the wall clock.
pub fn llen(db: &RedisDb, key: &[u8]) -> (r: RedisValueRef)
    ensures
        exists|now: u64|
            vw(r) == (if !expired_at(*db, key@, now) {
                match tbl_get(db.dict@, key@) {
                    Some(RedisValue::List(l)) => len_reply(l@.len() as int),
                    Some(_) => RespSpec::Error(
                        ("WRONGTYPE Operation against a key holding the wrong kind of value")
                            .spec_bytes(),
                    ),
                    None => RespSpec::Int(0),
                }
            } else {
                RespSpec::Int(0)
            }),
{
    let now = now_millis();
    llen_at(db, key, now)
}

/// What a pop replies: with no count asked, the one popped element as a
/// bulk string; with a count asked, the popped elements as an array,
/// however many they are.
pub open spec fn lpop_reply(popped: Seq<Vec<u8>>, counted: bool) -> RespSpec {
    if counted {
        RespSpec::Array(strings_view(popped))
    } else {
        RespSpec::String(popped[0]@)
    }
}

/// What popping from the head of `k` at `now` does: lazily expire, then
/// take up to the asked count off a non-empty list, dropping the key when
/// the list empties; anything else reads as a null bulk string.
pub open spec fn lpop_outcome(
    pre: RedisDb,
    post: RedisDb,
    rv: RespSpec,
    k: Seq<u8>,
    num: Option<u64>,
    now: u64,
) -> bool {
    if expired_at(pre, k, now) {
        &&& rv == RespSpec::NullBulkString
        &&& tbl_get(post.dict@, k) is None
        &&& tbl_get(post.ttl@, k) is None
        &&& forall|k2: Seq<u8>| k2 != k ==> #[trigger] tbl_get(post.dict@, k2) == tbl_get(
            pre.dict@,
            k2,
        )
        &&& forall|k2: Seq<u8>| k2 != k ==> #[trigger] tbl_get(post.ttl@, k2) == tbl_get(
            pre.ttl@,
            k2,
        )
        &&& same_registries(post, pre)
    } else {
        match tbl_get(pre.dict@, k) {
            Some(v) => match v {
                RedisValue::List(l) => if l@.len() > 0 {
                    let want = (match num {
                        Some(m) => m as int,
                        None => 1,
                    });
                    let n = if want <= l@.len() {
                        want
                    } else {
                        l@.len() as int
                    };
                    &&& rv == lpop_reply(l@.take(n), num is Some)
                    &&& (if n == l@.len() {
                        tbl_get(post.dict@, k) is None
                    } else {
                        tbl_get(post.dict@, k) matches Some(v2) && v2 matches RedisValue::List(
                            l2,
                        ) && l2@ == l@.skip(n)
                    })
                    &&& forall|k2: Seq<u8>| k2 != k ==> #[trigger] tbl_get(post.dict@, k2)
                        == tbl_get(pre.dict@, k2)
                    &&& post.ttl == pre.ttl
                    &&& same_registries(post, pre)
                } else {
                    post == pre && rv == RespSpec::NullBulkString
                },
                _ => post == pre && rv == RespSpec::NullBulkString,
            },
            None => post == pre && rv == RespSpec::NullBulkString,
        }
    }
}

/// Pop up to `num_elements` (one, when absent) off the head of the list
/// under `key` as of `now`.
pub fn lpop_at(db: &mut RedisDb, key: &[u8], num_elements: Option<u64>, now: u64) -> (r:
    RedisValueRef)
    requires
        db_wf(*old(db)),
    ensures
        db_wf(*final(db)),
        lpop_outcome(*old(db), *final(db), vw(r), key@, num_elements, now),
{
    let expired = match crate::table::tbl_get_ref(&db.ttl, key) {
        Some(e) => *e < now,
        None => false,
    };
    if expired {
        let ghost d0 = db.dict@;
        tbl_remove(&mut db.dict, key);
        tbl_remove(&mut db.ttl, key);
        proof {
            crate::lemma_from_take(d0, db.dict@);
            lemma_dict_streams_wf(d0, db.dict@);
        }
        return RedisValueRef::NullBulkString;
    }
    let usable = match crate::table::tbl_get_ref(&db.dict, key) {
        Some(RedisValue::List(l)) => l.len() > 0,
        _ => false,
    };
    if !usable {
        return RedisValueRef::NullBulkString;
    }
    let ghost d0 = db.dict@;
    match tbl_take(&mut db.dict, key) {
        Some(RedisValue::List(mut list)) => {
            let ghost d1 = db.dict@;
            let ghost l0 = list@;
            let want: usize = match num_elements {
                Some(m) => if m <= usize::MAX as u64 {
                    m as usize
                } else {
                    usize::MAX
                },
                None => 1,
            };
            let n: usize = if want <= list.len() {
                want
            } else {
                list.len()
            };
            proof {
                let wants = (match num_elements {
                    Some(m) => m as int,
                    None => 1int,
                });
                let ns = if wants <= l0.len() {
                    wants
                } else {
                    l0.len() as int
                };
                assert(n as int == ns);
            }
            let mut popped: Vec<Vec<u8>> = Vec::new();
            let mut i: usize = 0;
            while i < n
                invariant
                    0 <= i <= n <= l0.len(),
                    popped@.len() == i,
                    popped@ + list@ == l0,
                decreases n - i,
            {
                let ghost p0 = popped@;
                let ghost li0 = list@;
                let x = list.remove(0);
                popped.push(x);
                assert(popped@ + list@ =~= p0 + li0);
                i += 1;
            }
            assert(popped@ =~= l0.take(n as int));
            assert(list@ =~= l0.skip(n as int));
            let reply = match num_elements {
                None => {
                    let x = popped.remove(0);
                    RedisValueRef::String(x)
                },
                Some(_) => RedisValueRef::Array(strings_reply(&popped, 0, popped.len())),
            };
            proof {
                match num_elements {
                    None => {
                        assert(l0.take(n as int)[0] == l0[0]);
                    },
                    Some(_) => {
                        assert(popped@.subrange(0, popped@.len() as int) =~= popped@);
                    },
                }
                assert(vw(reply) == lpop_reply(l0.take(n as int), num_elements is Some));
            }
            if list.len() > 0 {
                let nv = RedisValue::List(list);
                let ghost nvg = nv;
                tbl_set(&mut db.dict, key, nv);
                proof {
                    crate::lemma_from_take(d0, d1);
                    crate::lemma_from_step(d1, db.dict@, nvg);
                    lemma_entries_from_trans(d0, d1, db.dict@);
                    lemma_dict_streams_wf(d0, db.dict@);
                }
            } else {
                proof {
                    crate::lemma_from_take(d0, db.dict@);
                    lemma_dict_streams_wf(d0, db.dict@);
                }
            }
            reply
        },
        _ => {
            proof {
                assert(false);
            }
            RedisValueRef::NullBulkString
        },
    }
}

/// Pop one element off the head of the list under `key` as of the wall
/// clock, or up to the asked count.
pub fn lpop(db: &mut RedisDb, key: &[u8], num_elements: Option<u64>) -> (r: RedisValueRef)
    requires
        db_wf(*old(db)),
    ensures
        db_wf(*final(db)),
        exists|now: u64| lpop_outcome(*old(db), *final(db), vw(r), key@, num_elements, now),
{
    let ghost pre = *db;
    let now = now_millis();
    let r = lpop_at(db, key, num_elements, now);
    proof {
        assert(lpop_outcome(pre, *db, vw(r), key@, num_elements, now));
    }
    r
}

/// The first step of a blocking pop at `now`: when the key reads as
/// something, pop one element and wrap it with the key; when it reads as
/// absent, nothing — the caller parks a waiter instead.
pub fn blpop_immediate(db: &mut RedisDb, key: &[u8], now: u64) -> (r: Option<RedisValueRef>)
    requires
        db_wf(*old(db)),
    ensures
        db_wf(*final(db)),
        match r {
            None => crate::get_outcome(*old(db), *final(db), RespSpec::NullBulkString, key@,
            now),
            Some(v) => exists|mid: RedisDb, g: RespSpec, pv: RespSpec|
                {
                    &&& #[trigger] crate::get_outcome(*old(db), mid, g, key@, now)
                    &&& g != RespSpec::NullBulkString
                    &&& #[trigger] lpop_outcome(mid, *final(db), pv, key@, None, now)
                    &&& vw(v) == RespSpec::Array(seq![RespSpec::String(key@), pv])
                },
        },
{
    let exists_reply = crate::get_at(db, key, now);
    match exists_reply {
        RedisValueRef::NullBulkString => None,
        _ => {
            let ghost mid = *db;
            let ghost g = vw(exists_reply);
            let val = lpop_at(db, key, None, now);
            let ghost pv = vw(val);
            let mut key_copy: Vec<u8> = Vec::new();
            crate::parser::extend_lit(&mut key_copy, key);
            assert(key_copy@ =~= key@);
            let mut parts: Vec<RedisValueRef> = Vec::new();
            parts.push(RedisValueRef::String(key_copy));
            parts.push(val);
            let r = RedisValueRef::Array(parts);
            proof {
                assert(crate::parser::vws(parts@) =~= seq![RespSpec::String(key@), pv]);
            }
            Some(r)
        },
    }
}

/// Park a waiter named `id` at the back of the queue for `key`.
pub fn register_waiter(db: &mut RedisDb, key: &[u8], id: u64)
    requires
        db_wf(*old(db)),
    ensures
        db_wf(*final(db)),
        tbl_get(final(db).waiters@, key@) matches Some(q) && q@ == (match tbl_get(
            old(db).waiters@,
            key@,
        ) {
            Some(q0) => q0@,
            None => Seq::<u64>::empty(),
        }).push(id),
        forall|k2: Seq<u8>| k2 != key@ ==> #[trigger] tbl_get(final(db).waiters@, k2) == tbl_get(
            old(db).waiters@,
            k2,
        ),
        final(db).dict == old(db).dict,
        final(db).ttl == old(db).ttl,
        final(db).stream_waiters == old(db).stream_waiters,
        final(db).pubsub == old(db).pubsub,
        final(db).replicas == old(db).replicas,
        final(db).replication_offset == old(db).replication_offset,
{
    let mut q: Vec<u64> = match tbl_take(&mut db.waiters, key) {
        Some(q0) => q0,
        None => Vec::new(),
    };
    q.push(id);
    tbl_set(&mut db.waiters, key, q);
    proof {
        assert((match tbl_get(old(db).waiters@, key@) {
            Some(q0) => q0@,
            None => Seq::<u64>::empty(),
        }).push(id) == q@);
    }
}

/// Whether `x` occurs in `v`.
pub fn contains_u64(v: &Vec<u64>, x: u64) -> (r: bool)
    ensures
        r == v@.contains(x),
{
    let mut i: usize = 0;
    while i < v.len()
        invariant
            0 <= i <= v@.len(),
            forall|j: int| 0 <= j < i ==> v@[j] != x,
        decreases v@.len() - i,
    {
        if v[i] == x {
            return true;
        }
        i += 1;
    }
    assert(!v@.contains(x));
    false
}

/// The waiter-matching procedure, mathematically: walk the queue from the
/// front, dropping waiters whose channels have closed; each live waiter in
/// turn takes the value at the head of the list.  The result is the pairs
/// handed out, the list that remains, and the queue that remains.
pub open spec fn match_spec(l: Seq<Vec<u8>>, q: Seq<u64>, closed: Seq<u64>) -> (
    Seq<(u64, Vec<u8>)>,
    Seq<Vec<u8>>,
    Seq<u64>,
)
    decreases q.len(),
{
    if l.len() == 0 || q.len() == 0 {
        (Seq::empty(), l, q)
    } else if closed.contains(q[0]) {
        match_spec(l, q.drop_first(), closed)
    } else {
        let rec = match_spec(l.drop_first(), q.drop_first(), closed);
        (seq![(q[0], l[0])] + rec.0, rec.1, rec.2)
    }
}

/// Run the waiter-matching procedure for `key`: pair pushed values with
/// live waiters in arrival order, drop waiters whose channels (named in
/// `closed`) are gone, and remove the key when the list empties.  The
/// pairs returned are what the caller delivers.
pub fn notify_waiters(db: &mut RedisDb, key: &[u8], closed: &Vec<u64>) -> (r: Vec<(
    u64,
    Vec<u8>,
)>)
    requires
        db_wf(*old(db)),
    ensures
        db_wf(*final(db)),
        ({
            let l0 = (match tbl_get(old(db).dict@, key@) {
                Some(RedisValue::List(l)) => l@,
                _ => Seq::<Vec<u8>>::empty(),
            });
            let q0 = (match tbl_get(old(db).waiters@, key@) {
                Some(q) => q@,
                None => Seq::<u64>::empty(),
            });
            let has_list = tbl_get(old(db).dict@, key@) matches Some(v) && v
                matches RedisValue::List(_);
            let has_queue = tbl_get(old(db).waiters@, key@) is Some;
            if has_list && has_queue {
                let m = match_spec(l0, q0, closed@);
                &&& r@ == m.0
                &&& (if m.1.len() > 0 {
                    tbl_get(final(db).dict@, key@) matches Some(v2) && v2
                        matches RedisValue::List(l2) && l2@ == m.1
                } else {
                    tbl_get(final(db).dict@, key@) is None
                })
                &&& tbl_get(final(db).waiters@, key@) matches Some(q2) && q2@ == m.2
                &&& forall|k2: Seq<u8>| k2 != key@ ==> #[trigger] tbl_get(final(db).dict@, k2)
                    == tbl_get(old(db).dict@, k2)
                &&& forall|k2: Seq<u8>| k2 != key@ ==> #[trigger] tbl_get(
                    final(db).waiters@,
                    k2,
                ) == tbl_get(old(db).waiters@, k2)
                &&& final(db).ttl == old(db).ttl
                &&& final(db).stream_waiters == old(db).stream_waiters
                &&& final(db).pubsub == old(db).pubsub
                &&& final(db).replicas == old(db).replicas
                &&& final(db).replication_offset == old(db).replication_offset
            } else {
                *final(db) == *old(db) && r@ == Seq::<(u64, Vec<u8>)>::empty()
            }
        }),
{
    let ready = match crate::table::tbl_get_ref(&db.dict, key) {
        Some(RedisValue::List(_)) => match crate::table::tbl_get_ref(&db.waiters, key) {
            Some(_) => true,
            None => false,
        },
        _ => false,
    };
    if !ready {
        return Vec::new();
    }
    let ghost d0 = db.dict@;
    match tbl_take(&mut db.dict, key) {
        Some(RedisValue::List(mut list)) => {
            let ghost d1 = db.dict@;
            let mut queue: Vec<u64> = match tbl_take(&mut db.waiters, key) {
                Some(q) => q,
                None => Vec::new(),
            };
            let ghost l0 = list@;
            let ghost q0 = queue@;
            let mut asg: Vec<(u64, Vec<u8>)> = Vec::new();
            while list.len() > 0 && queue.len() > 0
                invariant
                    ({
                        let m = match_spec(l0, q0, closed@);
                        let rec = match_spec(list@, queue@, closed@);
                        m.0 == asg@ + rec.0 && m.1 == rec.1 && m.2 == rec.2
                    }),
                decreases queue@.len(),
            {
                let ghost la = list@;
                let ghost qa = queue@;
                let ghost aa = asg@;
                let id = queue.remove(0);
                if contains_u64(closed, id) {
                    proof {
                        assert(qa.drop_first() =~= queue@);
                        assert(match_spec(la, qa, closed@) == match_spec(la, queue@, closed@));
                    }
                } else {
                    let v = list.remove(0);
                    asg.push((id, v));
                    proof {
                        let rec = match_spec(list@, queue@, closed@);
                        assert(qa.drop_first() =~= queue@);
                        assert(la.drop_first() =~= list@);
                        assert(match_spec(la, qa, closed@).0 =~= seq![(id, la[0])] + rec.0);
                        assert(aa + match_spec(la, qa, closed@).0 =~= asg@ + rec.0);
                    }
                }
            }
            proof {
                assert(match_spec(list@, queue@, closed@).0 =~= Seq::<(u64, Vec<u8>)>::empty());
                assert(asg@ + Seq::<(u64, Vec<u8>)>::empty() =~= asg@);
            }
            let ghost m = match_spec(l0, q0, closed@);
            tbl_set(&mut db.waiters, key, queue);
            if list.len() > 0 {
                let nv = RedisValue::List(list);
                let ghost nvg = nv;
                tbl_set(&mut db.dict, key, nv);
                proof {
                    crate::lemma_from_take(d0, d1);
                    crate::lemma_from_step(d1, db.dict@, nvg);
                    lemma_entries_from_trans(d0, d1, db.dict@);
                    lemma_dict_streams_wf(d0, db.dict@);
                }
            } else {
                proof {
                    crate::lemma_from_take(d0, db.dict@);
                    lemma_dict_streams_wf(d0, db.dict@);
                }
            }
            asg
        },
        _ => {
            proof {
                assert(false);
            }
            Vec::new()
        },
    }
}

/// Delivering each pushed value with a separate round of matching: one
/// value arrives, the procedure runs, and the queue that remains carries
/// to the next round.
pub open spec fn rounds(q: Seq<u64>, vs: Seq<Vec<u8>>, closed: Seq<u64>) -> Seq<(u64, Vec<u8>)>
    decreases vs.len(),
{
    if vs.len() == 0 {
        Seq::empty()
    } else {
        let m = match_spec(seq![vs[0]], q, closed);
        m.0 + rounds(m.2, vs.drop_first(), closed)
    }
}

/// First come, first served: when waiters park in order, none of their
/// channels close, and values are pushed one at a time, the i-th waiter
/// receives exactly the i-th pushed value.
pub proof fn lemma_waiter_fifo(q: Seq<u64>, vs: Seq<Vec<u8>>, closed: Seq<u64>)
    requires
        forall|i: int| 0 <= i < q.len() ==> !closed.contains(#[trigger] q[i]),
        vs.len() <= q.len(),
    ensures
        rounds(q, vs, closed) == Seq::new(vs.len(), |i: int| (q[i], vs[i])),
    decreases vs.len(),
{
    if vs.len() == 0 {
        assert(rounds(q, vs, closed) =~= Seq::new(vs.len(), |i: int| (q[i], vs[i])));
    } else {
        let l1 = seq![vs[0]];
        assert(!closed.contains(q[0]));
        let rec = match_spec(l1.drop_first(), q.drop_first(), closed);
        assert(l1.drop_first().len() == 0);
        assert(rec == (Seq::<(u64, Vec<u8>)>::empty(), l1.drop_first(), q.drop_first()));
        let m = match_spec(l1, q, closed);
        assert(m.0 =~= seq![(q[0], vs[0])]);
        assert(m.2 == q.drop_first());
        assert forall|i: int| 0 <= i < q.drop_first().len() implies !closed.contains(
            #[trigger] q.drop_first()[i],
        ) by {
            assert(q.drop_first()[i] == q[i + 1]);
        }
        lemma_waiter_fifo(q.drop_first(), vs.drop_first(), closed);
        assert(rounds(q, vs, closed) =~= Seq::new(vs.len(), |i: int| (q[i], vs[i]))) by {
            assert(rounds(q, vs, closed) == m.0 + rounds(
                q.drop_first(),
                vs.drop_first(),
                closed,
            ));
            assert forall|i: int| 0 <= i < vs.len() implies rounds(q, vs, closed)[i] == (
            q[i], vs[i]) by {
                if i > 0 {
                    assert(rounds(q.drop_first(), vs.drop_first(), closed)[i - 1] == (
                    q.drop_first()[i - 1], vs.drop_first()[i - 1]));
                }
            }
        }
    }
}


/// The whole-list range: with both ends open, the clamp-and-slice rule
/// returns every element, so a right push of fresh values reads back in
/// the order they were given, and a left push reads back reversed.
pub proof fn lemma_lrange_whole(l: Seq<Vec<u8>>)
    requires
        l.len() > 0,
    ensures
        lrange_spec(l, 0, -1) == l,
{
    assert(lrange_spec(l, 0, -1) =~= l);
}

} // verus!
