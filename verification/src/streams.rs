//! Append-only streams: ordered logs of field/value records named by
//! `(ms, seq)` identifiers.  Identifiers are strictly increasing within a
//! stream; the auto-generation rules for partial identifiers live here.
use vstd::prelude::*;
use vstd::string::*;

use crate::parser::{copy_bytes, RedisValueRef, RespSpec, vw, vws};
use crate::table::{tbl_get, tbl_index, tbl_remove, tbl_set, tbl_take};
use crate::util::{dec_rep, now_millis, u64_to_dec};
use crate::{db_wf, expired_at, same_registries, RedisDb, RedisValue};

verus! {

/// The record payload of one stream entry: field/value byte pairs in order.
pub type StreamData = Vec<(Vec<u8>, Vec<u8>)>;

/// A possibly partial identifier as a command supplies it.
pub type StreamIdIn = (Option<u64>, Option<u64>);

/// The name of one stream entry: a millisecond part and a sequence part,
/// ordered lexicographically.
#[derive(Debug, Clone, Copy, PartialEq, Eq, Structural)]
pub struct StreamId {
    pub ms: u64,
    pub seq: u64,
}

/// Strict lexicographic order on identifiers.
pub open spec fn sid_lt(a: StreamId, b: StreamId) -> bool {
    a.ms < b.ms || (a.ms == b.ms && a.seq < b.seq)
}

/// Lexicographic order on identifiers, equality allowed.
pub open spec fn sid_le(a: StreamId, b: StreamId) -> bool {
    sid_lt(a, b) || a == b
}

impl StreamId {
    /// The identifier one past this one: the next sequence number, rolling
    /// into the next millisecond when the sequence part is exhausted.
    pub fn increment(&self) -> (r: Self)
        ensures
            r == (if self.seq < u64::MAX {
                StreamId { ms: self.ms, seq: (self.seq + 1) as u64 }
            } else if self.ms < u64::MAX {
                StreamId { ms: (self.ms + 1) as u64, seq: 0u64 }
            } else {
                StreamId { ms: u64::MAX, seq: 0u64 }
            }),
    {
        if self.seq < u64::MAX {
            StreamId { ms: self.ms, seq: self.seq + 1 }
        } else if self.ms < u64::MAX {
            StreamId { ms: self.ms + 1, seq: 0 }
        } else {
            StreamId { ms: u64::MAX, seq: 0 }
        }
    }

    /// Build an identifier from optional parts.  A missing millisecond part
    /// reads the wall clock; a missing sequence part becomes zero, or one
    /// when the millisecond part is zero.
    pub fn new(ms: Option<u64>, seq: Option<u64>) -> (r: Self)
        ensures
            ms matches Some(m) ==> r.ms == m,
            r.seq == (match seq {
                Some(sq) => sq,
                None => if r.ms == 0 {
                    1u64
                } else {
                    0u64
                },
            }),
    {
        let ms_val = match ms {
            Some(m) => m,
            None => now_millis(),
        };
        let seq_val = match seq {
            Some(sq) => sq,
            None => if ms_val == 0 {
                1
            } else {
                0
            },
        };
        StreamId { ms: ms_val, seq: seq_val }
    }

    /// The textual form of the identifier: both parts in decimal, joined by
    /// a dash.
    pub fn to_bytes(&self) -> (r: Vec<u8>)
        ensures
            r@ == dec_rep(self.ms as nat) + seq![0x2du8] + dec_rep(self.seq as nat),
    {
        let mut out = u64_to_dec(self.ms);
        out.push(0x2d);
        let seq_digits = u64_to_dec(self.seq);
        crate::parser::extend_bytes(&mut out, &seq_digits);
        assert(out@ =~= dec_rep(self.ms as nat) + seq![0x2du8] + dec_rep(self.seq as nat));
        out
    }
}

impl PartialOrd for StreamId {
    /// Identifiers order by millisecond part, then sequence part.
    fn partial_cmp(&self, other: &Self) -> (r: Option<core::cmp::Ordering>) {
        if self.ms < other.ms {
            Some(core::cmp::Ordering::Less)
        } else if self.ms > other.ms {
            Some(core::cmp::Ordering::Greater)
        } else if self.seq < other.seq {
            Some(core::cmp::Ordering::Less)
        } else if self.seq > other.seq {
            Some(core::cmp::Ordering::Greater)
        } else {
            Some(core::cmp::Ordering::Equal)
        }
    }
}

impl vstd::std_specs::cmp::PartialOrdSpecImpl for StreamId {
    open spec fn obeys_partial_cmp_spec() -> bool {
        true
    }

    open spec fn partial_cmp_spec(&self, other: &Self) -> Option<core::cmp::Ordering> {
        if sid_lt(*self, *other) {
            Some(core::cmp::Ordering::Less)
        } else if sid_lt(*other, *self) {
            Some(core::cmp::Ordering::Greater)
        } else {
            Some(core::cmp::Ordering::Equal)
        }
    }
}

/// A log ordered by identifier: entries strictly increase, so the log's
/// committed identifiers form a strictly increasing run.
#[derive(Debug, PartialEq)]
pub struct StreamCollection(pub Vec<(StreamId, StreamData)>);

/// Entries in strictly increasing identifier order.
pub open spec fn sc_wf(s: Seq<(StreamId, StreamData)>) -> bool {
    forall|i: int, j: int| 0 <= i < j < s.len() ==> sid_lt(s[i].0, s[j].0)
}

/// Where an ordered insert of `id` lands: replacing an equal entry, or
/// sitting between its strict neighbours.
pub open spec fn sc_insert_spec(
    s: Seq<(StreamId, StreamData)>,
    id: StreamId,
    data: StreamData,
) -> Seq<(StreamId, StreamData)>
    decreases s.len(),
{
    if s.len() == 0 {
        seq![(id, data)]
    } else if sid_lt(id, s[0].0) {
        seq![(id, data)] + s
    } else if id == s[0].0 {
        s.update(0, (id, data))
    } else {
        seq![s[0]] + sc_insert_spec(s.drop_first(), id, data)
    }
}

/// The first entry named `id`, if any.
pub open spec fn sc_find(s: Seq<(StreamId, StreamData)>, id: StreamId) -> Option<int>
    decreases s.len(),
{
    if s.len() == 0 {
        None
    } else if s[0].0 == id {
        Some(0)
    } else {
        match sc_find(s.drop_first(), id) {
            Some(i) => Some(i + 1),
            None => None,
        }
    }
}

impl StreamCollection {
    /// The empty log.
    pub fn new() -> (r: Self)
        ensures
            r.0@ == Seq::<(StreamId, StreamData)>::empty(),
    {
        StreamCollection(Vec::new())
    }

    /// Insert an entry at its ordered place, replacing an entry of the same
    /// identifier.
    pub fn insert(&mut self, id: StreamId, data: StreamData)
        ensures
            final(self).0@ == sc_insert_spec(old(self).0@, id, data),
    {
        let ghost s0 = self.0@;
        let mut i: usize = 0;
        while i < self.0.len() && lt_exec(&self.0[i].0, &id)
            invariant
                0 <= i <= self.0@.len(),
                self.0@ == s0,
                forall|j: int| 0 <= j < i ==> sid_lt(s0[j].0, id),
            decreases self.0@.len() - i,
        {
            i += 1;
        }
        proof {
            lemma_sc_insert_split(s0, id, data, i as int);
        }
        if i < self.0.len() && self.0[i].0 == id {
            self.0.remove(i);
            self.0.insert(i, (id, data));
            assert(self.0@ =~= s0.update(i as int, (id, data)));
            assert(s0.take(i as int) + sc_insert_spec(s0.skip(i as int), id, data) =~= s0.update(
                i as int,
                (id, data),
            ));
        } else {
            self.0.insert(i, (id, data));
            assert(self.0@ =~= s0.take(i as int) + (seq![(id, data)] + s0.skip(i as int)));
            if i < self.0.len() - 1 {
                assert(sc_insert_spec(s0.skip(i as int), id, data) == seq![(id, data)] + s0.skip(
                    i as int,
                ));
            } else {
                assert(s0.skip(i as int).len() == 0);
                assert(sc_insert_spec(s0.skip(i as int), id, data) =~= seq![(id, data)] + s0.skip(
                    i as int,
                ));
            }
        }
    }

    /// Borrow the record stored under `id`.
    pub fn get(&self, key: &StreamId) -> (r: Option<&StreamData>)
        ensures
            match r {
                Some(d) => sc_find(self.0@, *key) matches Some(i) && self.0@[i].1 == *d,
                None => sc_find(self.0@, *key) is None,
            },
    {
        let mut i: usize = 0;
        while i < self.0.len()
            invariant
                0 <= i <= self.0@.len(),
                forall|j: int| 0 <= j < i ==> self.0@[j].0 != *key,
            decreases self.0@.len() - i,
        {
            if self.0[i].0 == *key {
                proof {
                    lemma_sc_find_first(self.0@, *key, i as int);
                }
                return Some(&self.0[i].1);
            }
            i += 1;
        }
        proof {
            lemma_sc_find_props(self.0@, *key);
        }
        None
    }

    /// Borrow every entry, in identifier order.
    pub fn all(&self) -> (r: &Vec<(StreamId, StreamData)>)
        ensures
            r == &self.0,
    {
        &self.0
    }

    /// The identifier of the newest entry, if there is one.
    pub fn last_id(&self) -> (r: Option<StreamId>)
        ensures
            match r {
                Some(id) => self.0@.len() > 0 && id == self.0@.last().0,
                None => self.0@.len() == 0,
            },
    {
        if self.0.len() > 0 {
            Some(self.0[self.0.len() - 1].0)
        } else {
            None
        }
    }
}

/// Identifier order, decided in code.
pub fn lt_exec(a: &StreamId, b: &StreamId) -> (r: bool)
    ensures
        r == sid_lt(*a, *b),
{
    a.ms < b.ms || (a.ms == b.ms && a.seq < b.seq)
}

/// What `sc_find` finds: a first match in range, or no match at all.
proof fn lemma_sc_find_props(s: Seq<(StreamId, StreamData)>, id: StreamId)
    ensures
        match sc_find(s, id) {
            Some(i) => 0 <= i < s.len() && s[i].0 == id,
            None => forall|j: int| 0 <= j < s.len() ==> s[j].0 != id,
        },
    decreases s.len(),
{
    if s.len() > 0 && s[0].0 != id {
        lemma_sc_find_props(s.drop_first(), id);
        assert forall|j: int| 1 <= j < s.len() implies s[j] == s.drop_first()[j - 1] by {}
    }
}

/// A witness of a first match fixes what `sc_find` returns.
proof fn lemma_sc_find_first(s: Seq<(StreamId, StreamData)>, id: StreamId, i: int)
    requires
        0 <= i < s.len(),
        s[i].0 == id,
        forall|j: int| 0 <= j < i ==> s[j].0 != id,
    ensures
        sc_find(s, id) == Some(i),
    decreases s.len(),
{
    if i > 0 {
        lemma_sc_find_first(s.drop_first(), id, i - 1);
    }
}

/// An ordered insert skips exactly the run of strictly smaller entries.
proof fn lemma_sc_insert_split(
    s: Seq<(StreamId, StreamData)>,
    id: StreamId,
    data: StreamData,
    i: int,
)
    requires
        0 <= i <= s.len(),
        forall|j: int| 0 <= j < i ==> sid_lt(s[j].0, id),
    ensures
        sc_insert_spec(s, id, data) == s.take(i) + sc_insert_spec(s.skip(i), id, data),
    decreases i,
{
    if i == 0 {
        assert(s.take(0) =~= Seq::<(StreamId, StreamData)>::empty());
        assert(s.skip(0) =~= s);
        assert(s.take(0) + sc_insert_spec(s, id, data) =~= sc_insert_spec(s, id, data));
    } else {
        assert(sid_lt(s[0].0, id));
        assert(sc_insert_spec(s, id, data) == seq![s[0]] + sc_insert_spec(
            s.drop_first(),
            id,
            data,
        ));
        lemma_sc_insert_split(s.drop_first(), id, data, i - 1);
        assert(s.drop_first().take(i - 1) =~= s.take(i).drop_first());
        assert(s.drop_first().skip(i - 1) =~= s.skip(i));
        assert(seq![s[0]] + (s.take(i).drop_first() + sc_insert_spec(s.skip(i), id, data)) =~= s.take(
            i,
        ) + sc_insert_spec(s.skip(i), id, data));
    }
}

/// An ordered insert of a fresh identifier keeps the order strict, and an
/// insert past the end keeps it strict when the identifier tops the log.
pub proof fn lemma_sc_insert_wf(s: Seq<(StreamId, StreamData)>, id: StreamId, data: StreamData)
    requires
        sc_wf(s),
    ensures
        sc_wf(sc_insert_spec(s, id, data)),
    decreases s.len(),
{
    let t = sc_insert_spec(s, id, data);
    if s.len() == 0 {
    } else if sid_lt(id, s[0].0) {
        assert forall|a: int, b: int| 0 <= a < b < t.len() implies sid_lt(t[a].0, t[b].0) by {
            if a == 0 {
                assert(t[0] == (id, data));
                assert(t[b] == s[b - 1]);
                if b - 1 > 0 {
                    assert(sid_lt(s[0].0, s[b - 1].0));
                }
            } else {
                assert(t[a] == s[a - 1] && t[b] == s[b - 1]);
            }
        }
    } else if id == s[0].0 {
        assert forall|a: int, b: int| 0 <= a < b < t.len() implies sid_lt(t[a].0, t[b].0) by {
            assert(t[a].0 == s[a].0 && t[b].0 == s[b].0);
        }
    } else {
        assert(sc_wf(s.drop_first())) by {
            assert forall|a: int, b: int| 0 <= a < b < s.drop_first().len() implies sid_lt(
                s.drop_first()[a].0,
                s.drop_first()[b].0,
            ) by {
                assert(s.drop_first()[a] == s[a + 1] && s.drop_first()[b] == s[b + 1]);
            }
        }
        lemma_sc_insert_wf(s.drop_first(), id, data);
        let t2 = sc_insert_spec(s.drop_first(), id, data);
        assert forall|a: int, b: int| 0 <= a < b < t.len() implies sid_lt(t[a].0, t[b].0) by {
            if a == 0 {
                assert(t[b] == t2[b - 1]);
                lemma_sc_insert_members(s.drop_first(), id, data, b - 1);
                if t2[b - 1].0 != id {
                    let j = choose|j: int|
                        0 <= j < s.drop_first().len() && s.drop_first()[j].0 == t2[b - 1].0;
                    assert(s.drop_first()[j] == s[j + 1]);
                    assert(sid_lt(s[0].0, s[j + 1].0));
                } else {
                    assert(sid_lt(s[0].0, id));
                }
            } else {
                assert(t[a] == t2[a - 1] && t[b] == t2[b - 1]);
            }
        }
    }
}

/// Every entry of an ordered insert is an old entry or the new one.
proof fn lemma_sc_insert_members(
    s: Seq<(StreamId, StreamData)>,
    id: StreamId,
    data: StreamData,
    i: int,
)
    requires
        0 <= i < sc_insert_spec(s, id, data).len(),
    ensures
        sc_insert_spec(s, id, data)[i].0 == id || exists|j: int|
            0 <= j < s.len() && s[j].0 == #[trigger] sc_insert_spec(s, id, data)[i].0,
    decreases s.len(),
{
    let t = sc_insert_spec(s, id, data);
    if s.len() == 0 {
    } else if sid_lt(id, s[0].0) {
        if i > 0 {
            assert(t[i] == s[i - 1]);
        }
    } else if id == s[0].0 {
        if i > 0 {
            assert(t[i] == s[i]);
        }
    } else {
        if i > 0 {
            lemma_sc_insert_members(s.drop_first(), id, data, i - 1);
            assert(t[i] == sc_insert_spec(s.drop_first(), id, data)[i - 1]);
            if sc_insert_spec(s.drop_first(), id, data)[i - 1].0 != id {
                let j = choose|j: int|
                    0 <= j < s.drop_first().len() && s.drop_first()[j].0 == sc_insert_spec(
                        s.drop_first(),
                        id,
                        data,
                    )[i - 1].0;
                assert(s[j + 1].0 == t[i].0);
            }
        } else {
            assert(t[0] == s[0]);
        }
    }
}

/// The identifier the log will commit for a request, next to the last
/// committed one: a wholly absent identifier reads the clock; an absent
/// sequence part continues the last entry's millisecond run.
pub fn compute_stream_id(ms: Option<u64>, seq: Option<u64>, last_stream: &StreamId) -> (r:
    StreamId)
    ensures
        match ms {
            None => r.seq == (if r.ms == 0 {
                1u64
            } else {
                0u64
            }),
            Some(m) => r.ms == m && r.seq == (match seq {
                Some(sq) => sq,
                None => if m == last_stream.ms {
                    if last_stream.seq < u64::MAX {
                        (last_stream.seq + 1) as u64
                    } else {
                        u64::MAX
                    }
                } else if m == 0 {
                    1u64
                } else {
                    0u64
                },
            }),
        },
{
    match ms {
        None => StreamId::new(None, None),
        Some(m) => {
            if m == last_stream.ms {
                let next_seq = match seq {
                    Some(sq) => sq,
                    None => if last_stream.seq < u64::MAX {
                        last_stream.seq + 1
                    } else {
                        u64::MAX
                    },
                };
                StreamId::new(Some(m), Some(next_seq))
            } else {
                StreamId::new(Some(m), seq)
            }
        },
    }
}

/// The largest identifier: the stand-in for an open upper bound and for a
/// request that wants only future entries.
pub open spec fn sid_max() -> StreamId {
    StreamId { ms: u64::MAX, seq: u64::MAX }
}

/// The identifier one past `id`, as `increment` computes it.
pub open spec fn sid_inc(id: StreamId) -> StreamId {
    if id.seq < u64::MAX {
        StreamId { ms: id.ms, seq: (id.seq + 1) as u64 }
    } else if id.ms < u64::MAX {
        StreamId { ms: (id.ms + 1) as u64, seq: 0u64 }
    } else {
        StreamId { ms: u64::MAX, seq: 0u64 }
    }
}

/// The textual form of an identifier.
pub open spec fn id_bytes(id: StreamId) -> Seq<u8> {
    dec_rep(id.ms as nat) + seq![0x2du8] + dec_rep(id.seq as nat)
}

/// The wire shape of a record: field and value bulk strings, interleaved.
pub open spec fn fields_view(d: Seq<(Vec<u8>, Vec<u8>)>) -> Seq<RespSpec> {
    Seq::new(2 * d.len(), |i: int| if i % 2 == 0 {
        RespSpec::String(d[i / 2].0@)
    } else {
        RespSpec::String(d[i / 2].1@)
    })
}

/// The wire shape of one entry: its identifier, then its record.
pub open spec fn entry_val(id: StreamId, d: Seq<(Vec<u8>, Vec<u8>)>) -> RespSpec {
    RespSpec::Array(
        seq![RespSpec::String(id_bytes(id)), RespSpec::Array(fields_view(d))],
    )
}

/// The wire shapes of the entries whose identifiers fall between `start`
/// and `stop`, both inclusive, in order.
pub open spec fn entries_vals(
    s: Seq<(StreamId, StreamData)>,
    start: StreamId,
    stop: StreamId,
) -> Seq<RespSpec>
    decreases s.len(),
{
    if s.len() == 0 {
        Seq::empty()
    } else {
        (if sid_le(start, s[0].0) && sid_le(s[0].0, stop) {
            seq![entry_val(s[0].0, s[0].1@)]
        } else {
            Seq::empty()
        }) + entries_vals(s.drop_first(), start, stop)
    }
}

/// Extending the log extends its ranged rendering at the back.
proof fn lemma_entries_vals_push(
    s: Seq<(StreamId, StreamData)>,
    e: (StreamId, StreamData),
    start: StreamId,
    stop: StreamId,
)
    ensures
        entries_vals(s.push(e), start, stop) == entries_vals(s, start, stop) + (if sid_le(
            start,
            e.0,
        ) && sid_le(e.0, stop) {
            seq![entry_val(e.0, e.1@)]
        } else {
            Seq::<RespSpec>::empty()
        }),
    decreases s.len(),
{
    let t = s.push(e);
    if s.len() == 0 {
        assert(t.drop_first() =~= Seq::<(StreamId, StreamData)>::empty());
        assert(entries_vals(Seq::<(StreamId, StreamData)>::empty(), start, stop)
            == Seq::<RespSpec>::empty());
        assert(entries_vals(s, start, stop) == Seq::<RespSpec>::empty());
        assert(t[0] == e);
        assert(entries_vals(t, start, stop) =~= entries_vals(s, start, stop) + (if sid_le(
            start,
            e.0,
        ) && sid_le(e.0, stop) {
            seq![entry_val(e.0, e.1@)]
        } else {
            Seq::<RespSpec>::empty()
        }));
    } else {
        lemma_entries_vals_push(s.drop_first(), e, start, stop);
        assert(t.drop_first() =~= s.drop_first().push(e));
        assert(t[0] == s[0]);
        assert(entries_vals(t, start, stop) =~= entries_vals(s, start, stop) + (if sid_le(
            start,
            e.0,
        ) && sid_le(e.0, stop) {
            seq![entry_val(e.0, e.1@)]
        } else {
            Seq::<RespSpec>::empty()
        }));
    }
}

/// An insert above every present identifier lands at the back.
pub proof fn lemma_sc_insert_append(
    s: Seq<(StreamId, StreamData)>,
    id: StreamId,
    data: StreamData,
)
    requires
        forall|i: int| 0 <= i < s.len() ==> sid_lt(#[trigger] s[i].0, id),
    ensures
        sc_insert_spec(s, id, data) == s.push((id, data)),
    decreases s.len(),
{
    if s.len() == 0 {
        assert(sc_insert_spec(s, id, data) =~= s.push((id, data)));
    } else {
        assert(sid_lt(s[0].0, id));
        lemma_sc_insert_append(s.drop_first(), id, data);
        assert(s.drop_first().push((id, data)) =~= s.push((id, data)).drop_first());
        assert(sc_insert_spec(s, id, data) =~= s.push((id, data)));
    }
}

/// Render a record for the wire: field and value bulk strings in turn.
fn fields_to_value(d: &StreamData) -> (r: RedisValueRef)
    ensures
        vw(r) == RespSpec::Array(fields_view(d@)),
{
    let ghost target = fields_view(d@);
    let mut items: Vec<RedisValueRef> = Vec::new();
    let mut i: usize = 0;
    while i < d.len()
        invariant
            0 <= i <= d@.len(),
            target == fields_view(d@),
            vws(items@) =~= target.take(2 * i),
        decreases d@.len() - i,
    {
        let ghost prev1 = items@;
        let ck = copy_bytes(&d[i].0);
        let ek = RedisValueRef::String(ck);
        let ghost evk = vw(ek);
        proof {
            assert(evk == RespSpec::String(d@[i as int].0@));
            assert(vws(prev1).len() == 2 * i);
        }
        items.push(ek);
        let ghost prev2 = items@;
        let cv = copy_bytes(&d[i].1);
        let ev2 = RedisValueRef::String(cv);
        let ghost evv = vw(ev2);
        proof {
            assert(evv == RespSpec::String(d@[i as int].1@));
        }
        items.push(ev2);
        proof {
            assert(items@.len() == 2 * i + 2);
            assert(vw(items@[2 * i]) == evk);
            assert(vw(items@[2 * i + 1]) == evv);
            assert forall|m: int| 0 <= m < 2 * i + 2 implies vws(items@)[m] == target.take(
                2 * i + 2,
            )[m] by {
                if m < 2 * i {
                    assert(items@[m] == prev1[m]);
                    assert(vws(prev1)[m] == target.take(2 * i)[m]);
                } else if m == 2 * i {
                    assert(target[m] == RespSpec::String(d@[i as int].0@));
                } else {
                    assert(target[m] == RespSpec::String(d@[i as int].1@));
                }
            }
            assert(vws(items@) =~= target.take(2 * i + 2));
        }
        i += 1;
    }
    assert(target.take(target.len() as int) =~= target);
    RedisValueRef::Array(items)
}

/// Render one entry for the wire: its identifier and its record.
pub fn entry_to_value(id: StreamId, d: &StreamData) -> (r: RedisValueRef)
    ensures
        vw(r) == entry_val(id, d@),
{
    let id_text = id.to_bytes();
    let inner = fields_to_value(d);
    let mut parts: Vec<RedisValueRef> = Vec::new();
    parts.push(RedisValueRef::String(id_text));
    parts.push(inner);
    let r = RedisValueRef::Array(parts);
    proof {
        assert(vws(parts@) =~= seq![
            RespSpec::String(id_bytes(id)),
            RespSpec::Array(fields_view(d@)),
        ]);
    }
    r
}

/// Render every entry between `start` and `stop`, in order.
fn entries_reply(entries: &Vec<(StreamId, StreamData)>, start: StreamId, stop: StreamId) -> (r:
    Vec<RedisValueRef>)
    ensures
        vws(r@) == entries_vals(entries@, start, stop),
{
    let ghost es = entries@;
    let mut out: Vec<RedisValueRef> = Vec::new();
    let mut i: usize = 0;
    while i < entries.len()
        invariant
            0 <= i <= es.len(),
            entries@ == es,
            vws(out@) =~= entries_vals(es.take(i as int), start, stop),
        decreases es.len() - i,
    {
        let e = &entries[i];
        let ghost prev = out@;
        if le_exec(&start, &e.0) && le_exec(&e.0, &stop) {
            let v = entry_to_value(e.0, &e.1);
            let ghost ev = vw(v);
            out.push(v);
            proof {
                assert(vws(prev).len() == entries_vals(es.take(i as int), start, stop).len());
                assert forall|m: int|
                    0 <= m < out@.len() implies vws(out@)[m] == (entries_vals(
                    es.take(i as int), start, stop) + seq![ev])[m] by {
                    if m < prev.len() {
                        assert(out@[m] == prev[m]);
                    } else {
                        assert(vw(out@[m]) == ev);
                    }
                }
                assert(vws(out@) =~= entries_vals(es.take(i as int), start, stop) + seq![ev]);
                lemma_entries_vals_push(es.take(i as int), es[i as int], start, stop);
                assert(es.take(i + 1) =~= es.take(i as int).push(es[i as int]));
            }
        } else {
            proof {
                lemma_entries_vals_push(es.take(i as int), es[i as int], start, stop);
                assert(es.take(i + 1) =~= es.take(i as int).push(es[i as int]));
                assert(entries_vals(es.take(i as int), start, stop)
                    + Seq::<RespSpec>::empty() =~= entries_vals(
                    es.take(i as int),
                    start,
                    stop,
                ));
            }
        }
        i += 1;
    }
    assert(es.take(es.len() as int) =~= es);
    out
}

/// Identifier order with equality, decided in code.
pub fn le_exec(a: &StreamId, b: &StreamId) -> (r: bool)
    ensures
        r == sid_le(*a, *b),
{
    a.ms < b.ms || (a.ms == b.ms && a.seq <= b.seq)
}


/// What a wholly or partly generated identifier may be when the log is
/// empty or absent: a given millisecond part is kept, the sequence part
/// follows the zero-avoidance rule.
pub open spec fn id_fresh_rule(ms: Option<u64>, sq: Option<u64>, id: StreamId) -> bool {
    &&& (ms matches Some(m) ==> id.ms == m)
    &&& id.seq == (match sq {
        Some(x) => x,
        None => if id.ms == 0 {
            1u64
        } else {
            0u64
        },
    })
}

/// What a generated identifier may be next to the last committed one: an
/// absent sequence part continues the last entry's millisecond run.
pub open spec fn id_next_rule(
    ms: Option<u64>,
    sq: Option<u64>,
    last: StreamId,
    id: StreamId,
) -> bool {
    match ms {
        None => id.seq == (if id.ms == 0 {
            1u64
        } else {
            0u64
        }),
        Some(m) => id.ms == m && id.seq == (match sq {
            Some(x) => x,
            None => if m == last.ms {
                if last.seq < u64::MAX {
                    (last.seq + 1) as u64
                } else {
                    u64::MAX
                }
            } else if m == 0 {
                1u64
            } else {
                0u64
            },
        }),
    }
}

/// An append that went through: the entry sits at the back of the log
/// under `k`, the reply names its identifier, and nothing else moved
/// except the expiry dropped by lazy expiration.
pub open spec fn xadd_applied(
    pre: RedisDb,
    post: RedisDb,
    rv: RespSpec,
    k: Seq<u8>,
    olde: Seq<(StreamId, StreamData)>,
    fields: StreamData,
    id: StreamId,
    gone: bool,
) -> bool {
    &&& tbl_get(post.dict@, k) matches Some(v) && v matches RedisValue::Stream(sc2) && sc2.0@
        == olde.push((id, fields))
    &&& rv == RespSpec::String(id_bytes(id))
    &&& forall|k2: Seq<u8>| k2 != k ==> #[trigger] tbl_get(post.dict@, k2) == tbl_get(
        pre.dict@,
        k2,
    )
    &&& (if gone {
        &&& tbl_get(post.ttl@, k) is None
        &&& forall|k2: Seq<u8>| k2 != k ==> #[trigger] tbl_get(post.ttl@, k2) == tbl_get(
            pre.ttl@,
            k2,
        )
    } else {
        post.ttl == pre.ttl
    })
    &&& same_registries(post, pre)
}

/// What appending to the stream under `k` does, for the identifier `id`
/// that the generation rules produced at time `now`.
pub open spec fn xadd_post(
    pre: RedisDb,
    post: RedisDb,
    rv: RespSpec,
    k: Seq<u8>,
    ms: Option<u64>,
    sq: Option<u64>,
    fields: StreamData,
    id: StreamId,
    now: u64,
) -> bool {
    if ms == Some(0u64) && sq == Some(0u64) {
        post == pre && rv == RespSpec::Error(
            ("ERR The ID specified in XADD must be greater than 0-0").spec_bytes(),
        )
    } else {
        let gone = expired_at(pre, k, now);
        let cur = if gone {
            None
        } else {
            tbl_get(pre.dict@, k)
        };
        match cur {
            Some(v) => match v {
                RedisValue::Stream(sc) => if sc.0@.len() == 0 {
                    id_fresh_rule(ms, sq, id) && xadd_applied(pre, post, rv, k, sc.0@, fields,
                    id, false)
                } else {
                    let last = sc.0@.last().0;
                    id_next_rule(ms, sq, last, id) && (if sid_le(id, last) {
                        post == pre && rv == RespSpec::Error(
                            (
                            "ERR The ID specified in XADD is equal or smaller than the target stream top item").spec_bytes(),
                        )
                    } else {
                        xadd_applied(pre, post, rv, k, sc.0@, fields, id, false)
                    })
                },
                _ => post == pre && rv == RespSpec::Error(
                    ("WRONGTYPE Operation against a key holding the wrong kind of value").spec_bytes(),
                ),
            },
            None => id_fresh_rule(ms, sq, id) && xadd_applied(
                pre,
                post,
                rv,
                k,
                Seq::empty(),
                fields,
                id,
                gone,
            ),
        }
    }
}

/// Append a record to the stream under `key`: generate or check the
/// identifier, reject one not above the newest entry, and commit.  The
/// committed identifiers of a stream thus strictly increase.
pub fn xadd(db: &mut RedisDb, key: Vec<u8>, id_tuple: StreamIdIn, fields: StreamData) -> (r:
    RedisValueRef)
    requires
        db_wf(*old(db)),
    ensures
        db_wf(*final(db)),
        exists|id: StreamId, now: u64|
            #[trigger] xadd_post(*old(db), *final(db), vw(r), key@, id_tuple.0, id_tuple.1,
            fields, id, now),
{
    let (ms, sq) = id_tuple;
    let zero_zero = match (ms, sq) {
        (Some(m), Some(q)) => m == 0 && q == 0,
        _ => false,
    };
    if zero_zero {
        let r = RedisValueRef::Error(
            ("ERR The ID specified in XADD must be greater than 0-0").as_bytes_vec(),
        );
        proof {
            let idw = StreamId { ms: 0u64, seq: 0u64 };
            assert(xadd_post(*old(db), *db, vw(r), key@, ms, sq, fields, idw, 0u64));
        }
        return r;
    }
    let now = now_millis();
    let expired = match crate::table::tbl_get_ref(&db.ttl, key.as_slice()) {
        Some(e) => *e < now,
        None => false,
    };
    let ghost gone = expired;
    if expired {
        let ghost d0 = db.dict@;
        tbl_remove(&mut db.dict, key.as_slice());
        let ghost dmid = db.dict@;
        tbl_remove(&mut db.ttl, key.as_slice());
        proof {
            assert(db.dict@ == dmid);
            crate::lemma_from_take(d0, dmid);
            crate::lemma_dict_streams_wf(d0, dmid);
        }
    }
    let ghost mid = *db;
    let kind = match crate::table::tbl_get_ref(&db.dict, key.as_slice()) {
        Some(RedisValue::Stream(_)) => 2u8,
        Some(_) => 1u8,
        None => 0u8,
    };
    if kind == 1 {
        let r = RedisValueRef::Error(("WRONGTYPE Operation against a key holding the wrong kind of value")
            .as_bytes_vec());
        proof {
            let idw = StreamId { ms: 0u64, seq: 0u64 };
            assert(xadd_post(*old(db), *db, vw(r), key@, ms, sq, fields, idw, now));
        }
        return r;
    }
    if kind == 0 {
        let id = StreamId::new(ms, sq);
        let mut sc = StreamCollection::new();
        let ghost fg = fields;
        sc.insert(id, fields);
        proof {
            assert(sc.0@ =~= Seq::<(StreamId, StreamData)>::empty().push((id, fg)));
            assert(sc_wf(sc.0@));
        }
        let nv = RedisValue::Stream(sc);
        let ghost nvg = nv;
        let ghost d1 = db.dict@;
        tbl_set(&mut db.dict, key.as_slice(), nv);
        proof {
            crate::lemma_streams_wf_set(d1, db.dict@, nvg);
        }
        let r = RedisValueRef::String(id.to_bytes());
        proof {
            assert(xadd_post(*old(db), *db, vw(r), key@, ms, sq, fg, id, now));
        }
        return r;
    }
    let last_opt: Option<StreamId> = match crate::table::tbl_get_ref(&db.dict, key.as_slice()) {
        Some(RedisValue::Stream(sc)) => sc.last_id(),
        _ => None,
    };
    match last_opt {
        Some(last) => {
            let id = compute_stream_id(ms, sq, &last);
            if !lt_exec(&last, &id) {
                let r = RedisValueRef::Error(
                    ("ERR The ID specified in XADD is equal or smaller than the target stream top item")
                        .as_bytes_vec(),
                );
                proof {
                    assert(xadd_post(*old(db), *db, vw(r), key@, ms, sq, fields, id, now));
                }
                return r;
            }
            let ghost d1 = db.dict@;
            proof {
                crate::table::lemma_tbl_index_props(d1, key@);
            }
            match tbl_take(&mut db.dict, key.as_slice()) {
                Some(RedisValue::Stream(mut sc)) => {
                    let ghost e0 = sc.0@;
                    proof {
                        let i0 = tbl_index(d1, key@).unwrap();
                        assert(tbl_get(d1, key@) matches Some(v1) && v1
                            matches RedisValue::Stream(s1) && s1.0@ == e0);
                        assert(d1[i0].1 == tbl_get(d1, key@).unwrap());
                        assert(sc_wf(e0));
                    }
                    let ghost fg = fields;
                    sc.insert(id, fields);
                    proof {
                        assert(e0.last().0 == last);
                        assert forall|i: int| 0 <= i < e0.len() implies sid_lt(
                            #[trigger] e0[i].0,
                            id,
                        ) by {
                            if i < e0.len() - 1 {
                                assert(sid_lt(e0[i].0, e0[e0.len() - 1].0));
                            }
                        }
                        lemma_sc_insert_append(e0, id, fg);
                        assert(sc.0@ == e0.push((id, fg)));
                        assert(sc_wf(sc.0@)) by {
                            assert forall|a: int, b: int|
                                0 <= a < b < sc.0@.len() implies sid_lt(
                                sc.0@[a].0,
                                sc.0@[b].0,
                            ) by {
                                if b < e0.len() {
                                    assert(sc.0@[a] == e0[a] && sc.0@[b] == e0[b]);
                                } else {
                                    assert(sc.0@[b] == (id, fg));
                                    assert(sc.0@[a] == e0[a]);
                                }
                            }
                        }
                    }
                    let nv = RedisValue::Stream(sc);
                    let ghost nvg = nv;
                    let ghost d2 = db.dict@;
                    tbl_set(&mut db.dict, key.as_slice(), nv);
                    proof {
                        crate::lemma_streams_wf_set(d2, db.dict@, nvg);
                    }
                    let r = RedisValueRef::String(id.to_bytes());
                    proof {
                        assert(xadd_post(*old(db), *db, vw(r), key@, ms, sq, fg, id, now));
                    }
                    r
                },
                _ => {
                    proof {
                        assert(false);
                    }
                    RedisValueRef::NullBulkString
                },
            }
        },
        None => {
            let id = StreamId::new(ms, sq);
            let ghost d1 = db.dict@;
            proof {
                crate::table::lemma_tbl_index_props(d1, key@);
            }
            match tbl_take(&mut db.dict, key.as_slice()) {
                Some(RedisValue::Stream(mut sc)) => {
                    let ghost e0 = sc.0@;
                    proof {
                        assert(tbl_get(d1, key@) matches Some(v1) && v1
                            matches RedisValue::Stream(s1) && s1.0@ == e0);
                    }
                    let ghost fg = fields;
                    sc.insert(id, fields);
                    proof {
                        assert(e0.len() == 0);
                        assert forall|i: int| 0 <= i < e0.len() implies sid_lt(
                            #[trigger] e0[i].0,
                            id,
                        ) by {}
                        lemma_sc_insert_append(e0, id, fg);
                        assert(sc_wf(sc.0@));
                    }
                    let nv = RedisValue::Stream(sc);
                    let ghost nvg = nv;
                    let ghost d2 = db.dict@;
                    tbl_set(&mut db.dict, key.as_slice(), nv);
                    proof {
                        crate::lemma_streams_wf_set(d2, db.dict@, nvg);
                    }
                    let r = RedisValueRef::String(id.to_bytes());
                    proof {
                        assert(xadd_post(*old(db), *db, vw(r), key@, ms, sq, fg, id, now));
                    }
                    r
                },
                _ => {
                    proof {
                        assert(false);
                    }
                    RedisValueRef::NullBulkString
                },
            }
        },
    }
}

/// An open range bound filled in: a missing part reads as the given
/// default.
pub open spec fn bound_id(b: StreamIdIn, dms: u64, dseq: u64) -> StreamId {
    StreamId {
        ms: (match b.0 {
            Some(m) => m,
            None => dms,
        }),
        seq: (match b.1 {
            Some(q) => q,
            None => dseq,
        }),
    }
}

/// What a ranged read of the stream under `k` renders at time `now`.
pub open spec fn xrange_view(
    db: RedisDb,
    k: Seq<u8>,
    start: StreamIdIn,
    stop: StreamIdIn,
    now: u64,
) -> RespSpec {
    if !expired_at(db, k, now) {
        match tbl_get(db.dict@, k) {
            Some(v) => match v {
                RedisValue::Stream(sc) => RespSpec::Array(
                    entries_vals(sc.0@, bound_id(start, 0, 0), bound_id(
                        stop,
                        u64::MAX,
                        u64::MAX,
                    )),
                ),
                _ => RespSpec::Error(("WRONGTYPE Operation against a key holding the wrong kind of value").spec_bytes()),
            },
            None => RespSpec::Error(("ERR Key does not exist").spec_bytes()),
        }
    } else {
        RespSpec::Error(("ERR Key does not exist").spec_bytes())
    }
}

/// Read the inclusive identifier range of the stream under `key`: open
/// bounds read as the smallest and largest identifiers.
pub fn xrange(db: &RedisDb, key: &[u8], start: StreamIdIn, stop: StreamIdIn) -> (r:
    RedisValueRef)
    ensures
        exists|now: u64| vw(r) == #[trigger] xrange_view(*db, key@, start, stop, now),
{
    let now = now_millis();
    let expired = match crate::table::tbl_get_ref(&db.ttl, key) {
        Some(e) => *e < now,
        None => false,
    };
    if expired {
        let r = RedisValueRef::Error(("ERR Key does not exist").as_bytes_vec());
        proof {
            assert(vw(r) == xrange_view(*db, key@, start, stop, now));
        }
        return r;
    }
    match crate::table::tbl_get_ref(&db.dict, key) {
        Some(RedisValue::Stream(sc)) => {
            let start_id = StreamId {
                ms: (match start.0 {
                    Some(m) => m,
                    None => 0,
                }),
                seq: (match start.1 {
                    Some(q) => q,
                    None => 0,
                }),
            };
            let stop_id = StreamId {
                ms: (match stop.0 {
                    Some(m) => m,
                    None => u64::MAX,
                }),
                seq: (match stop.1 {
                    Some(q) => q,
                    None => u64::MAX,
                }),
            };
            let items = entries_reply(sc.all(), start_id, stop_id);
            let r = RedisValueRef::Array(items);
            proof {
                assert(vw(r) == xrange_view(*db, key@, start, stop, now));
            }
            r
        },
        Some(_) => {
            let r = RedisValueRef::Error(
                ("WRONGTYPE Operation against a key holding the wrong kind of value").as_bytes_vec(),
            );
            proof {
                assert(vw(r) == xrange_view(*db, key@, start, stop, now));
            }
            r
        },
        None => {
            let r = RedisValueRef::Error(("ERR Key does not exist").as_bytes_vec());
            proof {
                assert(vw(r) == xrange_view(*db, key@, start, stop, now));
            }
            r
        },
    }
}


/// What a multi-stream read renders at time `now`: per listed stream, the
/// entries strictly above the given identifier; streams with nothing new
/// are left out; a missing or wrong-kind key fails the whole read.
pub open spec fn xread_spec(
    db: RedisDb,
    ss: Seq<(Vec<u8>, StreamIdIn)>,
    now: u64,
) -> Result<Seq<RespSpec>, RespSpec>
    decreases ss.len(),
{
    if ss.len() == 0 {
        Ok(Seq::empty())
    } else {
        let k = ss[0].0@;
        let sid0 = bound_id(ss[0].1, 0, 0);
        if expired_at(db, k, now) {
            Err(RespSpec::Error(("ERR Key does not exist").spec_bytes()))
        } else {
            match tbl_get(db.dict@, k) {
                Some(v) => match v {
                    RedisValue::Stream(sc) => match xread_spec(db, ss.drop_first(), now) {
                        Err(e) => Err(e),
                        Ok(rest) => if sid0 == sid_max() {
                            Ok(rest)
                        } else {
                            let vals = entries_vals(sc.0@, sid_inc(sid0), sid_max());
                            if vals.len() == 0 {
                                Ok(rest)
                            } else {
                                Ok(
                                    seq![
                                        RespSpec::Array(
                                            seq![
                                                RespSpec::String(k),
                                                RespSpec::Array(vals),
                                            ],
                                        ),
                                    ] + rest,
                                )
                            }
                        },
                    },
                    _ => Err(RespSpec::Error(("WRONGTYPE Operation against a key holding the wrong kind of value")
                        .spec_bytes())),
                },
                None => Err(RespSpec::Error(("ERR Key does not exist").spec_bytes())),
            }
        }
    }
}

/// Read every listed stream above its given identifier, leaving out the
/// streams with nothing new; reply with an array of per-stream results, or
/// the first failure.
pub fn xread(db: &RedisDb, streams: Vec<(Vec<u8>, StreamIdIn)>) -> (r: RedisValueRef)
    ensures
        exists|now: u64|
            match #[trigger] xread_spec(*db, streams@, now) {
                Ok(items) => vw(r) == RespSpec::Array(items),
                Err(e) => vw(r) == e,
            },
{
    let now = now_millis();
    let ghost ss = streams@;
    let mut out: Vec<RedisValueRef> = Vec::new();
    let mut i: usize = 0;
    proof {
        assert(ss.skip(0) =~= ss);
        assert(vws(out@) =~= Seq::<RespSpec>::empty());
        match xread_spec(*db, ss, now) {
            Ok(rest) => {
                assert(vws(out@) + rest =~= rest);
            },
            Err(_) => {},
        }
    }
    while i < streams.len()
        invariant
            0 <= i <= ss.len(),
            streams@ == ss,
            match xread_spec(*db, ss.skip(i as int), now) {
                Ok(rest) => xread_spec(*db, ss, now) == Ok::<Seq<RespSpec>, RespSpec>(
                    vws(out@) + rest,
                ),
                Err(e) => xread_spec(*db, ss, now) == Err::<Seq<RespSpec>, RespSpec>(e),
            },
        decreases ss.len() - i,
    {
        let ghost tail = ss.skip(i as int);
        proof {
            assert(tail[0] == ss[i as int]);
            assert(tail.drop_first() =~= ss.skip(i + 1));
        }
        let key = &streams[i].0;
        let sid0 = StreamId {
            ms: (match streams[i].1.0 {
                Some(m) => m,
                None => 0,
            }),
            seq: (match streams[i].1.1 {
                Some(q) => q,
                None => 0,
            }),
        };
        let expired = match crate::table::tbl_get_ref(&db.ttl, key.as_slice()) {
            Some(e) => *e < now,
            None => false,
        };
        if expired {
            let r = RedisValueRef::Error(("ERR Key does not exist").as_bytes_vec());
            proof {
                assert(xread_spec(*db, ss, now) matches Err(e) && vw(r) == e);
            }
            return r;
        }
        match crate::table::tbl_get_ref(&db.dict, key.as_slice()) {
            Some(RedisValue::Stream(sc)) => {
                if sid0.ms == u64::MAX && sid0.seq == u64::MAX {
                    proof {
                        assert(vws(out@) + Seq::<RespSpec>::empty() =~= vws(out@));
                    }
                } else {
                    let start = sid0.increment();
                    let stop = StreamId { ms: u64::MAX, seq: u64::MAX };
                    let vals = entries_reply(sc.all(), start, stop);
                    if vals.len() > 0 {
                        let ghost prev = out@;
                        let mut key_copy: Vec<u8> = Vec::new();
                        crate::parser::extend_lit(&mut key_copy, key.as_slice());
                        assert(key_copy@ =~= key@);
                        let inner = RedisValueRef::Array(vals);
                        let ghost innerv = vw(inner);
                        let mut parts: Vec<RedisValueRef> = Vec::new();
                        parts.push(RedisValueRef::String(key_copy));
                        parts.push(inner);
                        let item = RedisValueRef::Array(parts);
                        let ghost itemv = vw(item);
                        proof {
                            assert(vws(parts@) =~= seq![RespSpec::String(key@), innerv]);
                        }
                        out.push(item);
                        proof {
                            assert forall|m: int|
                                0 <= m < out@.len() implies vws(out@)[m] == (vws(prev) + seq![
                                itemv,
                            ])[m] by {
                                if m < prev.len() {
                                    assert(out@[m] == prev[m]);
                                } else {
                                    assert(vw(out@[m]) == itemv);
                                }
                            }
                            assert(vws(out@) =~= vws(prev) + seq![itemv]);
                            assert(vws(prev) + (seq![itemv] + xread_rest(*db, ss, i + 1, now))
                                =~= vws(out@) + xread_rest(*db, ss, i + 1, now));
                        }
                    } else {
                        proof {
                            assert(vws(out@) + Seq::<RespSpec>::empty() =~= vws(out@));
                        }
                    }
                }
            },
            Some(_) => {
                let r = RedisValueRef::Error(
                    ("WRONGTYPE Operation against a key holding the wrong kind of value").as_bytes_vec(),
                );
                proof {
                    assert(xread_spec(*db, ss, now) matches Err(e) && vw(r) == e);
                }
                return r;
            },
            None => {
                let r = RedisValueRef::Error(("ERR Key does not exist").as_bytes_vec());
                proof {
                    assert(xread_spec(*db, ss, now) matches Err(e) && vw(r) == e);
                }
                return r;
            },
        }
        i += 1;
    }
    proof {
        assert(ss.skip(ss.len() as int).len() == 0);
        assert(vws(out@) + Seq::<RespSpec>::empty() =~= vws(out@));
    }
    let r = RedisValueRef::Array(out);
    proof {
        assert(xread_spec(*db, ss, now) matches Ok(items) && vw(r) == RespSpec::Array(items));
    }
    r
}

/// The tail of a multi-stream read from position `i` on, when it succeeds;
/// empty otherwise.
pub open spec fn xread_rest(
    db: RedisDb,
    ss: Seq<(Vec<u8>, StreamIdIn)>,
    i: int,
    now: u64,
) -> Seq<RespSpec> {
    match xread_spec(db, ss.skip(i), now) {
        Ok(rest) => rest,
        Err(_) => Seq::empty(),
    }
}

/// Park a stream waiter named `id` at the back of the queue for `key`.
pub fn register_stream_waiter(db: &mut RedisDb, key: &[u8], id: u64)
    requires
        db_wf(*old(db)),
    ensures
        db_wf(*final(db)),
        tbl_get(final(db).stream_waiters@, key@) matches Some(q) && q@ == (match tbl_get(
            old(db).stream_waiters@,
            key@,
        ) {
            Some(q0) => q0@,
            None => Seq::<u64>::empty(),
        }).push(id),
        forall|k2: Seq<u8>| k2 != key@ ==> #[trigger] tbl_get(final(db).stream_waiters@, k2)
            == tbl_get(old(db).stream_waiters@, k2),
        final(db).dict == old(db).dict,
        final(db).ttl == old(db).ttl,
        final(db).waiters == old(db).waiters,
        final(db).pubsub == old(db).pubsub,
        final(db).replicas == old(db).replicas,
        final(db).replication_offset == old(db).replication_offset,
{
    let mut q: Vec<u64> = match tbl_take(&mut db.stream_waiters, key) {
        Some(q0) => q0,
        None => Vec::new(),
    };
    q.push(id);
    tbl_set(&mut db.stream_waiters, key, q);
    proof {
        assert((match tbl_get(old(db).stream_waiters@, key@) {
            Some(q0) => q0@,
            None => Seq::<u64>::empty(),
        }).push(id) == q@);
    }
}

/// Take every parked stream waiter for `key`, leaving an empty queue; the
/// caller delivers the freshly appended entry to those whose channels are
/// still open.
pub fn drain_stream_waiters(db: &mut RedisDb, key: &[u8]) -> (r: Vec<u64>)
    requires
        db_wf(*old(db)),
    ensures
        db_wf(*final(db)),
        r@ == (match tbl_get(old(db).stream_waiters@, key@) {
            Some(q0) => q0@,
            None => Seq::<u64>::empty(),
        }),
        (match tbl_get(old(db).stream_waiters@, key@) {
            Some(_) => tbl_get(final(db).stream_waiters@, key@) matches Some(q) && q@
                == Seq::<u64>::empty(),
            None => tbl_get(final(db).stream_waiters@, key@) is None,
        }),
        forall|k2: Seq<u8>| k2 != key@ ==> #[trigger] tbl_get(final(db).stream_waiters@, k2)
            == tbl_get(old(db).stream_waiters@, k2),
        final(db).dict == old(db).dict,
        final(db).ttl == old(db).ttl,
        final(db).waiters == old(db).waiters,
        final(db).pubsub == old(db).pubsub,
        final(db).replicas == old(db).replicas,
        final(db).replication_offset == old(db).replication_offset,
{
    match tbl_take(&mut db.stream_waiters, key) {
        Some(q0) => {
            tbl_set(&mut db.stream_waiters, key, Vec::new());
            q0
        },
        None => Vec::new(),
    }
}

/// The wire shape of the wake-up sent to a stream waiter: the key, then
/// the one fresh entry.
pub fn stream_notification(key: &[u8], id: StreamId, fields: &StreamData) -> (r: RedisValueRef)
    ensures
        vw(r) == RespSpec::Array(
            seq![
                RespSpec::String(key@),
                RespSpec::Array(seq![entry_val(id, fields@)]),
            ],
        ),
{
    let mut key_copy: Vec<u8> = Vec::new();
    crate::parser::extend_lit(&mut key_copy, key);
    assert(key_copy@ =~= key@);
    let entry = entry_to_value(id, fields);
    let ghost ev = vw(entry);
    let mut inner: Vec<RedisValueRef> = Vec::new();
    inner.push(entry);
    proof {
        assert(vws(inner@) =~= seq![ev]);
    }
    let inner_arr = RedisValueRef::Array(inner);
    let ghost iv = vw(inner_arr);
    let mut parts: Vec<RedisValueRef> = Vec::new();
    parts.push(RedisValueRef::String(key_copy));
    parts.push(inner_arr);
    proof {
        assert(vws(parts@) =~= seq![RespSpec::String(key@), iv]);
    }
    RedisValueRef::Array(parts)
}

/// The identifier of the newest entry of the stream under `key`, if that
/// key holds a non-empty stream.
pub fn stream_last_id(db: &RedisDb, key: &[u8]) -> (r: Option<StreamId>)
    ensures
        match tbl_get(db.dict@, key@) {
            Some(v) => match v {
                RedisValue::Stream(sc) => r == (if sc.0@.len() > 0 {
                    Some(sc.0@.last().0)
                } else {
                    None::<StreamId>
                }),
                _ => r is None,
            },
            None => r is None,
        },
{
    match crate::table::tbl_get_ref(&db.dict, key) {
        Some(RedisValue::Stream(sc)) => sc.last_id(),
        _ => None,
    }
}


/// Stream monotonicity: in a healthy store, the committed identifiers of
/// every stream strictly increase, and an accepted append commits an
/// identifier above every one before it.
pub proof fn lemma_stream_monotone(db: RedisDb, k: Seq<u8>)
    requires
        db_wf(db),
        tbl_get(db.dict@, k) matches Some(v) && v matches RedisValue::Stream(_),
    ensures
        (match tbl_get(db.dict@, k) {
            Some(v) => match v {
                RedisValue::Stream(sc) => forall|i: int, j: int|
                    0 <= i < j < sc.0@.len() ==> sid_lt(sc.0@[i].0, sc.0@[j].0),
                _ => true,
            },
            None => true,
        }),
{
    crate::table::lemma_tbl_index_props(db.dict@, k);
    match crate::table::tbl_index(db.dict@, k) {
        Some(i0) => {
            assert(db.dict@[i0].1 == tbl_get(db.dict@, k).unwrap());
        },
        None => {},
    }
}

} // verus!
