//! Sorted sets: member strings with integral scores, ordered by score and
//! then by member bytes.  The ordered walk lives in an outside skip list;
//! a member table gives score lookup.  Scores here are the unsigned
//! integers the geospatial encoding produces, which the wire renders in
//! decimal.
use vstd::prelude::*;
use vstd::string::*;

use crate::lists::{len_reply, lrange_bounds, range_bounds_spec};
use crate::parser::{copy_bytes, RedisValueRef, RespSpec, vw, vws};
use crate::table::{tbl_get, tbl_set, tbl_take, tbl_wf};
use crate::util::{dec_rep, u64_to_dec};
use crate::{db_wf, RedisDb};

verus! {

/// The ordered container: an outside skip list of (score, member) nodes,
/// held whole behind this opaque holder.
#[verifier::external_body]
pub struct ScoreList {
    inner: skiplist::OrderedSkipList<(u64, Vec<u8>)>,
}

/// What the skip list holds: score and member of each node, in node order.
pub uninterp spec fn osl_entries(l: ScoreList) -> Seq<(u64, Seq<u8>)>;

/// Byte-wise lexicographic order, a shorter prefix first: the order the
/// standard library gives byte strings.
pub open spec fn bytes_lt(a: Seq<u8>, b: Seq<u8>) -> bool
    decreases a.len(),
{
    if b.len() == 0 {
        false
    } else if a.len() == 0 {
        true
    } else if a[0] < b[0] {
        true
    } else if a[0] > b[0] {
        false
    } else {
        bytes_lt(a.drop_first(), b.drop_first())
    }
}

/// Node order: by score, ties broken by ascending member bytes.
pub open spec fn pair_lt(a: (u64, Seq<u8>), b: (u64, Seq<u8>)) -> bool {
    a.0 < b.0 || (a.0 == b.0 && bytes_lt(a.1, b.1))
}

/// Entries in strictly ascending node order.
pub open spec fn entries_sorted(s: Seq<(u64, Seq<u8>)>) -> bool {
    forall|i: int, j: int| 0 <= i < j < s.len() ==> pair_lt(s[i], s[j])
}

/// Where an ordered insert lands: before the first entry not below it.
#[verifier::opaque]
pub open spec fn sorted_insert_spec(s: Seq<(u64, Seq<u8>)>, x: (u64, Seq<u8>)) -> Seq<
    (u64, Seq<u8>),
>
    decreases s.len(),
{
    if s.len() == 0 {
        seq![x]
    } else if pair_lt(s[0], x) {
        seq![s[0]] + sorted_insert_spec(s.drop_first(), x)
    } else {
        seq![x] + s
    }
}

/// The first entry equal to `x`, if any.
pub open spec fn find_entry(s: Seq<(u64, Seq<u8>)>, x: (u64, Seq<u8>)) -> Option<int>
    decreases s.len(),
{
    if s.len() == 0 {
        None
    } else if s[0] == x {
        Some(0)
    } else {
        match find_entry(s.drop_first(), x) {
            Some(i) => Some(i + 1),
            None => None,
        }
    }
}

/// Relies on OrderedSkipList::new: a freshly built list holds nothing.
#[verifier::external_body]
fn osl_new() -> (r: ScoreList)
    ensures
        osl_entries(r) == Seq::<(u64, Seq<u8>)>::empty(),
{
    ScoreList { inner: skiplist::OrderedSkipList::new() }
}

/// Relies on OrderedSkipList::len: the cached element count.
#[verifier::external_body]
fn osl_len(l: &ScoreList) -> (r: usize)
    ensures
        r == osl_entries(*l).len(),
{
    l.inner.len()
}

/// Relies on OrderedSkipList::insert: the value lands at its sorted
/// position, before any equal element; on a list in strictly ascending
/// order that is the position the ordered-insert function names.
#[verifier::external_body]
fn osl_insert(l: &mut ScoreList, score: u64, member: Vec<u8>)
    ensures
        osl_entries(*final(l)).len() == osl_entries(*old(l)).len() + 1,
        entries_sorted(osl_entries(*old(l))) ==> osl_entries(*final(l)) == sorted_insert_spec(
            osl_entries(*old(l)),
            (score, member@),
        ),
{
    l.inner.insert((score, member));
}

/// Relies on OrderedSkipList::take: on a list in ascending order, the
/// first element equal to the probe leaves and nothing else moves; the
/// result says whether one was there.  The ordered search finds its way
/// only on an ordered list, so nothing is promised of any other.
#[verifier::external_body]
fn osl_take(l: &mut ScoreList, score: u64, member: &Vec<u8>) -> (r: bool)
    ensures
        entries_sorted(osl_entries(*old(l))) ==> (match find_entry(
            osl_entries(*old(l)),
            (score, member@),
        ) {
            Some(i) => r == true && osl_entries(*final(l)) == osl_entries(*old(l)).remove(i),
            None => r == false && osl_entries(*final(l)) == osl_entries(*old(l)),
        }),
{
    l.inner.take(&(score, member.clone())).is_some()
}

/// Relies on OrderedSkipList::rank: on a list in ascending order, the
/// 0-based index of the first element equal to the probe, or nothing.
/// The ordered search finds its way only on an ordered list, so nothing
/// is promised of any other.
#[verifier::external_body]
fn osl_rank(l: &ScoreList, score: u64, member: &Vec<u8>) -> (r: Option<usize>)
    ensures
        entries_sorted(osl_entries(*l)) ==> (match find_entry(osl_entries(*l), (
        score, member@)) {
            Some(i) => r == Some(i as usize),
            None => r is None,
        }),
{
    l.inner.rank(&(score, member.clone()))
}

/// Relies on OrderedSkipList::get_by_index: the element at a 0-based
/// index, or nothing past the end.
#[verifier::external_body]
fn osl_get_by_index(l: &ScoreList, i: usize) -> (r: Option<(u64, Vec<u8>)>)
    ensures
        (if (i as int) < osl_entries(*l).len() {
            r matches Some(p) && p.0 == osl_entries(*l)[i as int].0 && p.1@ == osl_entries(
                *l,
            )[i as int].1
        } else {
            r is None
        }),
{
    l.inner.get_by_index(i).cloned()
}

/// A set of members with scores: a member table for lookup, an ordered
/// skip list of (score, member) nodes for ranked walks.  Every member
/// appears exactly once, and the nodes ascend strictly.
pub struct ZSet {
    pub map: Vec<(Vec<u8>, u64)>,
    pub list: ScoreList,
}

/// A healthy sorted set: the table is a table, the nodes ascend, and the
/// two sides name exactly the same memberships.
pub open spec fn zset_wf(z: ZSet) -> bool {
    &&& tbl_wf(z.map@)
    &&& entries_sorted(osl_entries(z.list))
    &&& osl_entries(z.list).len() == z.map@.len()
    &&& forall|i: int|
        0 <= i < osl_entries(z.list).len() ==> tbl_get(z.map@, #[trigger] osl_entries(
            z.list,
        )[i].1) == Some(osl_entries(z.list)[i].0)
    &&& forall|j: int| #![trigger z.map@[j]]
        0 <= j < z.map@.len() ==> exists|i: int|
            0 <= i < osl_entries(z.list).len() && #[trigger] osl_entries(z.list)[i] == (
            z.map@[j].1, z.map@[j].0@)
}

impl ZSet {
    /// An empty sorted set.
    pub fn new() -> (r: Self)
        ensures
            zset_wf(r),
            r.map@.len() == 0,
            osl_entries(r.list).len() == 0,
    {
        let r = ZSet { map: Vec::new(), list: osl_new() };
        proof {
            assert(zset_wf(r));
        }
        r
    }
}

/// Distinct byte strings are ordered one way or the other.
proof fn lemma_bytes_lt_total(a: Seq<u8>, b: Seq<u8>)
    requires
        a != b,
    ensures
        bytes_lt(a, b) || bytes_lt(b, a),
    decreases a.len(),
{
    if a.len() == 0 {
        if b.len() == 0 {
            assert(a =~= b);
        }
    } else if b.len() == 0 {
    } else if a[0] == b[0] {
        if a.drop_first() == b.drop_first() {
            assert(a.drop_first().len() == b.drop_first().len());
            assert(a.len() == b.len());
            assert forall|i: int| 0 <= i < a.len() implies a[i] == b[i] by {
                if i > 0 {
                    assert(a[i] == a.drop_first()[i - 1] && b[i] == b.drop_first()[i - 1]);
                }
            }
            assert(a =~= b);
        } else {
            lemma_bytes_lt_total(a.drop_first(), b.drop_first());
        }
    }
}

/// Byte-string order is transitive.
proof fn lemma_bytes_lt_trans(a: Seq<u8>, b: Seq<u8>, c: Seq<u8>)
    requires
        bytes_lt(a, b),
        bytes_lt(b, c),
    ensures
        bytes_lt(a, c),
    decreases a.len(),
{
    if b.len() == 0 {
    } else if c.len() == 0 {
    } else if a.len() == 0 {
    } else {
        if a[0] == b[0] && b[0] == c[0] {
            lemma_bytes_lt_trans(a.drop_first(), b.drop_first(), c.drop_first());
        }
    }
}

/// Node order is transitive.
proof fn lemma_pair_lt_trans(a: (u64, Seq<u8>), b: (u64, Seq<u8>), c: (u64, Seq<u8>))
    requires
        pair_lt(a, b),
        pair_lt(b, c),
    ensures
        pair_lt(a, c),
{
    if a.0 == b.0 && b.0 == c.0 {
        lemma_bytes_lt_trans(a.1, b.1, c.1);
    }
}

/// Distinct nodes are ordered one way or the other.
proof fn lemma_pair_lt_total(a: (u64, Seq<u8>), b: (u64, Seq<u8>))
    requires
        a != b,
    ensures
        pair_lt(a, b) || pair_lt(b, a),
{
    if a.0 == b.0 {
        if a.1 == b.1 {
            assert(a == b);
        } else {
            lemma_bytes_lt_total(a.1, b.1);
        }
    }
}

/// No byte string is below itself.
proof fn lemma_bytes_lt_irrefl(a: Seq<u8>)
    ensures
        !bytes_lt(a, a),
    decreases a.len(),
{
    if a.len() > 0 {
        lemma_bytes_lt_irrefl(a.drop_first());
    }
}

/// What `find_entry` finds: a first match in range, or no match at all.
proof fn lemma_find_entry_props(s: Seq<(u64, Seq<u8>)>, x: (u64, Seq<u8>))
    ensures
        match find_entry(s, x) {
            Some(i) => 0 <= i < s.len() && s[i] == x,
            None => forall|j: int| 0 <= j < s.len() ==> s[j] != x,
        },
    decreases s.len(),
{
    if s.len() > 0 && s[0] != x {
        lemma_find_entry_props(s.drop_first(), x);
        assert forall|j: int| 1 <= j < s.len() implies s[j] == s.drop_first()[j - 1] by {}
    }
}

/// Removing an entry keeps the order strict.
proof fn lemma_sorted_remove(s: Seq<(u64, Seq<u8>)>, i: int)
    requires
        entries_sorted(s),
        0 <= i < s.len(),
    ensures
        entries_sorted(s.remove(i)),
{
    let t = s.remove(i);
    assert forall|a: int, b: int| 0 <= a < b < t.len() implies pair_lt(t[a], t[b]) by {
        let a0 = if a < i {
            a
        } else {
            a + 1
        };
        let b0 = if b < i {
            b
        } else {
            b + 1
        };
        assert(t[a] == s[a0] && t[b] == s[b0]);
    }
}

/// The entries of an ordered insert: the new node, and every old one.
proof fn lemma_sorted_insert_members(s: Seq<(u64, Seq<u8>)>, x: (u64, Seq<u8>))
    ensures
        sorted_insert_spec(s, x).len() == s.len() + 1,
        forall|k: int|
            0 <= k < sorted_insert_spec(s, x).len() ==> #[trigger] sorted_insert_spec(s, x)[k]
                == x || exists|i: int| 0 <= i < s.len() && s[i] == sorted_insert_spec(s, x)[k],
        exists|k: int|
            0 <= k < sorted_insert_spec(s, x).len() && #[trigger] sorted_insert_spec(s, x)[k]
                == x,
        forall|i: int| #![trigger s[i]]
            0 <= i < s.len() ==> exists|k: int|
                0 <= k < sorted_insert_spec(s, x).len() && #[trigger] sorted_insert_spec(
                    s,
                    x,
                )[k] == s[i],
    decreases s.len(),
{
    reveal(sorted_insert_spec);
    let t = sorted_insert_spec(s, x);
    if s.len() == 0 {
        assert(t[0] == x);
    } else if pair_lt(s[0], x) {
        lemma_sorted_insert_members(s.drop_first(), x);
        let t2 = sorted_insert_spec(s.drop_first(), x);
        assert(t == seq![s[0]] + t2);
        assert forall|k: int| 0 <= k < t.len() implies #[trigger] t[k] == x || exists|i: int|
            0 <= i < s.len() && s[i] == t[k] by {
            if k > 0 {
                assert(t[k] == t2[k - 1]);
                if t2[k - 1] != x {
                    let i2 = choose|i2: int|
                        0 <= i2 < s.drop_first().len() && s.drop_first()[i2] == t2[k - 1];
                    assert(s[i2 + 1] == t[k]);
                }
            } else {
                assert(t[0] == s[0]);
            }
        }
        assert(exists|k: int| 0 <= k < t.len() && #[trigger] t[k] == x) by {
            let k2 = choose|k2: int| 0 <= k2 < t2.len() && t2[k2] == x;
            assert(t[k2 + 1] == x);
        }
        assert forall|i: int| #![trigger s[i]] 0 <= i < s.len() implies exists|k: int|
            0 <= k < t.len() && #[trigger] t[k] == s[i] by {
            if i == 0 {
                assert(t[0] == s[0]);
            } else {
                assert(s.drop_first()[i - 1] == s[i]);
                let k2 = choose|k2: int| 0 <= k2 < t2.len() && t2[k2] == s.drop_first()[i - 1];
                assert(t[k2 + 1] == s[i]);
            }
        }
    } else {
        assert(t == seq![x] + s);
        assert(t[0] == x);
        assert forall|k: int| 0 <= k < t.len() implies #[trigger] t[k] == x || exists|i: int|
            0 <= i < s.len() && s[i] == t[k] by {
            if k > 0 {
                assert(t[k] == s[k - 1]);
            }
        }
        assert forall|i: int| #![trigger s[i]] 0 <= i < s.len() implies exists|k: int|
            0 <= k < t.len() && #[trigger] t[k] == s[i] by {
            assert(t[i + 1] == s[i]);
        }
    }
}

/// An ordered insert of a fresh node keeps the order strict.
proof fn lemma_sorted_insert_sorted(s: Seq<(u64, Seq<u8>)>, x: (u64, Seq<u8>))
    requires
        entries_sorted(s),
        forall|i: int| 0 <= i < s.len() ==> s[i] != x,
    ensures
        entries_sorted(sorted_insert_spec(s, x)),
    decreases s.len(),
{
    reveal(sorted_insert_spec);
    let t = sorted_insert_spec(s, x);
    if s.len() == 0 {
    } else if pair_lt(s[0], x) {
        assert(entries_sorted(s.drop_first())) by {
            assert forall|a: int, b: int| 0 <= a < b < s.drop_first().len() implies pair_lt(
                s.drop_first()[a],
                s.drop_first()[b],
            ) by {
                assert(s.drop_first()[a] == s[a + 1] && s.drop_first()[b] == s[b + 1]);
            }
        }
        lemma_sorted_insert_sorted(s.drop_first(), x);
        let t2 = sorted_insert_spec(s.drop_first(), x);
        lemma_sorted_insert_members(s.drop_first(), x);
        assert forall|a: int, b: int| 0 <= a < b < t.len() implies pair_lt(t[a], t[b]) by {
            if a == 0 {
                assert(t[b] == t2[b - 1]);
                if t2[b - 1] == x {
                    assert(pair_lt(s[0], x));
                } else {
                    let i2 = choose|i2: int|
                        0 <= i2 < s.drop_first().len() && s.drop_first()[i2] == t2[b - 1];
                    assert(s.drop_first()[i2] == s[i2 + 1]);
                    assert(pair_lt(s[0], s[i2 + 1]));
                }
            } else {
                assert(t[a] == t2[a - 1] && t[b] == t2[b - 1]);
            }
        }
    } else {
        lemma_pair_lt_total(x, s[0]);
        assert(pair_lt(x, s[0]));
        assert forall|a: int, b: int| 0 <= a < b < t.len() implies pair_lt(t[a], t[b]) by {
            if a == 0 {
                assert(t[b] == s[b - 1]);
                if b - 1 > 0 {
                    assert(pair_lt(s[0], s[b - 1]));
                    lemma_pair_lt_trans(x, s[0], s[b - 1]);
                }
            } else {
                assert(t[a] == s[a - 1] && t[b] == s[b - 1]);
            }
        }
    }
}

/// In a healthy set, at most one node carries a given member.
proof fn lemma_member_unique(z: ZSet, a: int, b: int)
    requires
        zset_wf(z),
        0 <= a < osl_entries(z.list).len(),
        0 <= b < osl_entries(z.list).len(),
        osl_entries(z.list)[a].1 == osl_entries(z.list)[b].1,
    ensures
        a == b,
{
    let es = osl_entries(z.list);
    assert(tbl_get(z.map@, es[a].1) == Some(es[a].0));
    assert(tbl_get(z.map@, es[b].1) == Some(es[b].0));
    assert(es[a].0 == es[b].0);
    if a < b {
        assert(pair_lt(es[a], es[b]));
        lemma_bytes_lt_irrefl(es[a].1);
    } else if b < a {
        assert(pair_lt(es[b], es[a]));
        lemma_bytes_lt_irrefl(es[a].1);
    }
}

impl ZSet {
    /// Bind `member` to `score`: a fresh member is inserted and counts one;
    /// a present member moves to its new node and counts zero.
    #[verifier::spinoff_prover]
    #[verifier::rlimit(100)]
    pub fn add(&mut self, member: Vec<u8>, score: u64) -> (r: usize)
        requires
            zset_wf(*old(self)),
        ensures
            zset_wf(*final(self)),
            r == (if crate::table::tbl_has(old(self).map@, member@) {
                0int
            } else {
                1int
            }),
            tbl_get(final(self).map@, member@) == Some(score),
            final(self).map@.len() == old(self).map@.len() + (if crate::table::tbl_has(
                old(self).map@,
                member@,
            ) {
                0int
            } else {
                1int
            }),
            forall|m2: Seq<u8>| m2 != member@ ==> #[trigger] tbl_get(final(self).map@, m2)
                == tbl_get(old(self).map@, m2),
            osl_entries(final(self).list) == sorted_insert_spec(
                (match tbl_get(old(self).map@, member@) {
                    Some(s0) => osl_entries(old(self).list).remove(
                        find_entry(
                            osl_entries(old(self).list),
                            (s0, member@),
                        ).unwrap(),
                    ),
                    None => osl_entries(old(self).list),
                }),
                (score, member@),
            ),
    {
        let ghost z0 = *self;
        let ghost es0 = osl_entries(self.list);
        let old_score: Option<u64> = match crate::table::tbl_get_ref(&self.map, member.as_slice())
         {
            Some(s0) => Some(*s0),
            None => None,
        };
        match old_score {
            Some(s0) => {
                proof {
                    crate::table::lemma_tbl_index_props(self.map@, member@);
                    let j0 = crate::table::tbl_index(self.map@, member@).unwrap();
                    assert(self.map@[j0].0@ == member@ && self.map@[j0].1 == s0);
                    let i0 = choose|i: int|
                        0 <= i < es0.len() && #[trigger] es0[i] == (
                        self.map@[j0].1, self.map@[j0].0@);
                    assert(es0[i0] == (s0, member@));
                    lemma_find_entry_props(es0, (s0, member@));
                    assert(find_entry(es0, (s0, member@)) is Some);
                }
                let removed = osl_take(&mut self.list, s0, &member);
                let ghost i_rm = find_entry(es0, (s0, member@)).unwrap();
                let ghost es1 = osl_entries(self.list);
                proof {
                    assert(removed);
                    assert(es1 == es0.remove(i_rm));
                    lemma_find_entry_props(es0, (s0, member@));
                    lemma_sorted_remove(es0, i_rm);
                }
                tbl_set(&mut self.map, member.as_slice(), score);
                proof {
                    assert forall|i: int| 0 <= i < es1.len() implies es1[i] != (
                    score, member@) by {
                        let i0 = if i < i_rm {
                            i
                        } else {
                            i + 1
                        };
                        assert(es1[i] == es0[i0]);
                        if es0[i0].1 == member@ {
                            lemma_member_unique(z0, i0, i_rm);
                        }
                    }
                }
                let ghost mv = member@;
                osl_insert(&mut self.list, score, member);
                proof {
                    lemma_sorted_insert_sorted(es1, (score, mv));
                    lemma_sorted_insert_members(es1, (score, mv));
                    lemma_zset_wf_after(z0, *self, es1, Some((s0, i_rm)), score, mv);
                }
                0
            },
            None => {
                proof {
                    crate::table::lemma_tbl_index_props(self.map@, member@);
                    assert forall|i: int| 0 <= i < es0.len() implies es0[i] != (
                    score, member@) by {
                        if es0[i].1 == member@ {
                            assert(tbl_get(z0.map@, member@) == Some(es0[i].0));
                        }
                    }
                }
                tbl_set(&mut self.map, member.as_slice(), score);
                let ghost mv = member@;
                osl_insert(&mut self.list, score, member);
                proof {
                    lemma_sorted_insert_sorted(es0, (score, mv));
                    lemma_sorted_insert_members(es0, (score, mv));
                    lemma_zset_wf_after(z0, *self, es0, None, score, mv);
                }
                1
            },
        }
    }
}

/// The shared shape of the two rebuild cases of an add: what held before,
/// what the table now says, and how the node sequence was rebuilt.
pub open spec fn add_shape(
    z0: ZSet,
    z1: ZSet,
    es_mid: Seq<(u64, Seq<u8>)>,
    removed: Option<(u64, int)>,
    score: u64,
    mv: Seq<u8>,
) -> bool {
    &&& zset_wf(z0)
    &&& tbl_wf(z1.map@)
    &&& tbl_get(z1.map@, mv) == Some(score)
    &&& forall|m2: Seq<u8>| m2 != mv ==> #[trigger] tbl_get(z1.map@, m2) == tbl_get(z0.map@, m2)
    &&& z1.map@.len() == (match removed {
        Some(_) => z0.map@.len(),
        None => z0.map@.len() + 1,
    })
    &&& es_mid == (match removed {
        Some((s0, i_rm)) => osl_entries(z0.list).remove(i_rm),
        None => osl_entries(z0.list),
    })
    &&& (match removed {
        Some((s0, i_rm)) => 0 <= i_rm < osl_entries(z0.list).len() && osl_entries(
            z0.list,
        )[i_rm] == (s0, mv) && tbl_get(z0.map@, mv) == Some(s0),
        None => tbl_get(z0.map@, mv) is None,
    })
    &&& osl_entries(z1.list) == sorted_insert_spec(es_mid, (score, mv))
    &&& entries_sorted(osl_entries(z1.list))
}

/// After an add, every node still matches the table.
#[verifier::spinoff_prover]
#[verifier::rlimit(100)]
proof fn lemma_wf_forward(
    z0: ZSet,
    z1: ZSet,
    es_mid: Seq<(u64, Seq<u8>)>,
    removed: Option<(u64, int)>,
    score: u64,
    mv: Seq<u8>,
)
    requires
        add_shape(z0, z1, es_mid, removed, score, mv),
    ensures
        forall|i: int|
            0 <= i < osl_entries(z1.list).len() ==> tbl_get(
                z1.map@,
                #[trigger] osl_entries(z1.list)[i].1,
            ) == Some(osl_entries(z1.list)[i].0),
{
    let es0 = osl_entries(z0.list);
    let es1 = osl_entries(z1.list);
    lemma_sorted_insert_members(es_mid, (score, mv));
    assert forall|i: int| 0 <= i < es1.len() implies tbl_get(z1.map@, #[trigger] es1[i].1)
        == Some(es1[i].0) by {
        if es1[i] == (score, mv) {
        } else {
            let im = choose|im: int| 0 <= im < es_mid.len() && es_mid[im] == es1[i];
            match removed {
                Some((s0, i_rm)) => {
                    let i0 = if im < i_rm {
                        im
                    } else {
                        im + 1
                    };
                    assert(es_mid[im] == es0[i0]);
                    assert(tbl_get(z0.map@, es0[i0].1) == Some(es0[i0].0));
                    if es0[i0].1 == mv {
                        lemma_member_unique(z0, i0, i_rm);
                    }
                },
                None => {
                    assert(tbl_get(z0.map@, es_mid[im].1) == Some(es_mid[im].0));
                    if es_mid[im].1 == mv {
                        assert(tbl_get(z0.map@, mv) is None);
                    }
                },
            }
        }
    }
}

/// After an add, every table row still has its node.
#[verifier::spinoff_prover]
#[verifier::rlimit(100)]
proof fn lemma_wf_reverse(
    z0: ZSet,
    z1: ZSet,
    es_mid: Seq<(u64, Seq<u8>)>,
    removed: Option<(u64, int)>,
    score: u64,
    mv: Seq<u8>,
)
    requires
        add_shape(z0, z1, es_mid, removed, score, mv),
    ensures
        forall|j: int| #![trigger z1.map@[j]]
            0 <= j < z1.map@.len() ==> exists|i: int|
                0 <= i < osl_entries(z1.list).len() && #[trigger] osl_entries(z1.list)[i] == (
                z1.map@[j].1, z1.map@[j].0@),
{
    let es0 = osl_entries(z0.list);
    let es1 = osl_entries(z1.list);
    lemma_sorted_insert_members(es_mid, (score, mv));
    assert forall|j: int| #![trigger z1.map@[j]]
        0 <= j < z1.map@.len() implies exists|i: int|
            0 <= i < es1.len() && #[trigger] es1[i] == (z1.map@[j].1, z1.map@[j].0@) by {
        let m2 = z1.map@[j].0@;
        let sc2 = z1.map@[j].1;
        crate::table::lemma_tbl_index_props(z1.map@, m2);
        assert(tbl_get(z1.map@, m2) == Some(sc2)) by {
            crate::table::lemma_tbl_first_match(z1.map@, m2, j);
        }
        if m2 == mv {
            assert(sc2 == score);
            let k = choose|k: int| 0 <= k < es1.len() && es1[k] == (score, mv);
            assert(es1[k] == (sc2, m2));
        } else {
            assert(tbl_get(z0.map@, m2) == Some(sc2));
            crate::table::lemma_tbl_index_props(z0.map@, m2);
            let j0 = crate::table::tbl_index(z0.map@, m2).unwrap();
            let i0 = choose|i: int|
                0 <= i < es0.len() && #[trigger] es0[i] == (z0.map@[j0].1, z0.map@[j0].0@);
            assert(es0[i0] == (sc2, m2));
            match removed {
                Some((s0, i_rm)) => {
                    assert(i0 != i_rm) by {
                        if i0 == i_rm {
                            assert(es0[i_rm].1 == mv);
                        }
                    }
                    let im = if i0 < i_rm {
                        i0
                    } else {
                        i0 - 1
                    };
                    assert(es_mid[im] == es0[i0]);
                    let k = choose|k: int| 0 <= k < es1.len() && es1[k] == es_mid[im];
                    assert(es1[k] == (sc2, m2));
                },
                None => {
                    let k = choose|k: int| 0 <= k < es1.len() && es1[k] == es_mid[i0];
                    assert(es1[k] == (sc2, m2));
                },
            }
        }
    }
}

/// After a move or a fresh insert, the set is healthy again.
proof fn lemma_zset_wf_after(
    z0: ZSet,
    z1: ZSet,
    es_mid: Seq<(u64, Seq<u8>)>,
    removed: Option<(u64, int)>,
    score: u64,
    mv: Seq<u8>,
)
    requires
        add_shape(z0, z1, es_mid, removed, score, mv),
    ensures
        zset_wf(z1),
{
    lemma_sorted_insert_members(es_mid, (score, mv));
    lemma_wf_forward(z0, z1, es_mid, removed, score, mv);
    lemma_wf_reverse(z0, z1, es_mid, removed, score, mv);
}

/// Every stored sorted set stays healthy when one is rebound to a healthy
/// one.
proof fn lemma_zsets_wf_set(
    s0: Seq<(Vec<u8>, ZSet)>,
    s1: Seq<(Vec<u8>, ZSet)>,
    v: ZSet,
)
    requires
        crate::zsets_wf(s0),
        crate::table::values_from_or(s0, s1, v),
        zset_wf(v),
    ensures
        crate::zsets_wf(s1),
{
    assert forall|i: int| 0 <= i < s1.len() implies zset_wf(#[trigger] s1[i].1) by {
        let p = s1[i];
        if s1[i].1 != v {
            let j = choose|j: int| 0 <= j < s0.len() && s1[i].1 == s0[j].1;
            assert(zset_wf(s0[j].1));
        }
    }
}

/// Every stored sorted set stays healthy when one is taken out.
proof fn lemma_zsets_wf_take(s0: Seq<(Vec<u8>, ZSet)>, s1: Seq<(Vec<u8>, ZSet)>)
    requires
        crate::zsets_wf(s0),
        crate::table::values_from(s0, s1),
    ensures
        crate::zsets_wf(s1),
{
    assert forall|i: int| 0 <= i < s1.len() implies zset_wf(#[trigger] s1[i].1) by {
        let p = s1[i];
        let j = choose|j: int| 0 <= j < s0.len() && s1[i].1 == s0[j].1;
        assert(zset_wf(s0[j].1));
    }
}

/// What an add leaves under the set key `k` and what it counts.
pub open spec fn zadd_post(
    pre: RedisDb,
    post: RedisDb,
    rv: RespSpec,
    k: Seq<u8>,
    score: u64,
    member: Seq<u8>,
) -> bool {
    &&& rv == RespSpec::Int(
        (match tbl_get(pre.zsets@, k) {
            Some(z0) => if crate::table::tbl_has(z0.map@, member) {
                0int
            } else {
                1int
            },
            None => 1int,
        }),
    )
    &&& tbl_get(post.zsets@, k) matches Some(z2) && tbl_get(z2.map@, member) == Some(score)
        && (match tbl_get(pre.zsets@, k) {
        Some(z0) => (forall|m2: Seq<u8>|
            m2 != member ==> #[trigger] tbl_get(z2.map@, m2) == tbl_get(z0.map@, m2))
            && osl_entries(z2.list) == sorted_insert_spec(
            (match tbl_get(z0.map@, member) {
                Some(s0) => osl_entries(z0.list).remove(
                    find_entry(osl_entries(z0.list), (s0, member)).unwrap(),
                ),
                None => osl_entries(z0.list),
            }),
            (score, member),
        ),
        None => z2.map@.len() == 1 && osl_entries(z2.list) == sorted_insert_spec(
            Seq::<(u64, Seq<u8>)>::empty(),
            (score, member),
        ),
    })
    &&& forall|k2: Seq<u8>| k2 != k ==> #[trigger] tbl_get(post.zsets@, k2) == tbl_get(
        pre.zsets@,
        k2,
    )
    &&& post.dict == pre.dict
    &&& post.ttl == pre.ttl
    &&& post.waiters == pre.waiters
    &&& post.stream_waiters == pre.stream_waiters
    &&& post.pubsub == pre.pubsub
    &&& post.replicas == pre.replicas
    &&& post.replication_offset == pre.replication_offset
}

/// Bind `member` to `score` in the sorted set under `set`, creating the
/// set when absent; reply one for a fresh member, zero for a moved one.
pub fn zadd(db: &mut RedisDb, set: Vec<u8>, score: u64, member: Vec<u8>) -> (r: RedisValueRef)
    requires
        db_wf(*old(db)),
    ensures
        db_wf(*final(db)),
        zadd_post(*old(db), *final(db), vw(r), set@, score, member@),
{
    let ghost zs0 = db.zsets@;
    let mut z: ZSet = match tbl_take(&mut db.zsets, set.as_slice()) {
        Some(z0) => z0,
        None => ZSet::new(),
    };
    let ghost zs_mid = db.zsets@;
    let ghost z_pre = z;
    proof {
        match tbl_get(zs0, set@) {
            Some(_) => {
                crate::table::lemma_tbl_index_props(zs0, set@);
                let i0 = crate::table::tbl_index(zs0, set@).unwrap();
                assert(zs0[i0].1 == z_pre);
                assert(zset_wf(z_pre));
            },
            None => {},
        }
    }
    let cnt = z.add(member, score);
    let ghost z_post = z;
    tbl_set(&mut db.zsets, set.as_slice(), z);
    proof {
        lemma_zsets_wf_take(zs0, zs_mid);
        lemma_zsets_wf_set(zs_mid, db.zsets@, z_post);
        match tbl_get(zs0, set@) {
            Some(z0) => {
                assert(z_pre == z0);
            },
            None => {
                assert(osl_entries(z_pre.list) =~= Seq::<(u64, Seq<u8>)>::empty());
                assert(crate::table::tbl_index(z_pre.map@, member@) is None);
                assert(!crate::table::tbl_has(z_pre.map@, member@));
            },
        }
    }
    RedisValueRef::Int(cnt as i64)
}

/// The wire shapes of a rank range of nodes: each member as a bulk string.
pub open spec fn zrange_vals(es: Seq<(u64, Seq<u8>)>, s: int, e: int) -> Seq<RespSpec> {
    Seq::new(
        (if 0 <= s && s <= e && e < es.len() {
            e + 1 - s
        } else {
            0
        }) as nat,
        |k: int| RespSpec::String(es[s + k].1),
    )
}

/// One normalized rank: negative counts from the end, floored at zero.
pub open spec fn normalize_spec(index: int, len: int) -> int {
    if index < 0 {
        if len + index >= 0 {
            len + index
        } else {
            0
        }
    } else {
        index
    }
}

/// Turn a signed rank into an unsigned one relative to `len`.
pub fn normalize_index(index: i64, len: usize) -> (r: usize)
    requires
        len <= usize::MAX,
    ensures
        (normalize_spec(index as int, len as int) <= usize::MAX ==> r as int == normalize_spec(
            index as int,
            len as int,
        )),
        (normalize_spec(index as int, len as int) > usize::MAX ==> r == usize::MAX),
{
    if index < 0 {
        let mag: u64 = if index == i64::MIN {
            9223372036854775808u64
        } else {
            (-index) as u64
        };
        if mag >= len as u64 {
            0
        } else {
            len - (mag as usize)
        }
    } else {
        if (index as u64) <= (usize::MAX as u64) {
            index as usize
        } else {
            usize::MAX
        }
    }
}

/// The members of the sorted set under `set` between two ranks, ascending
/// by score and member, under the same clamp-and-slice rule as a list
/// range; an absent set reads as an empty array.
pub fn zrange(db: &RedisDb, set: &[u8], start: i64, stop: i64) -> (r: RedisValueRef)
    requires
        db_wf(*db),
    ensures
        vw(r) == (match tbl_get(db.zsets@, set@) {
            Some(z) => {
                let es = osl_entries(z.list);
                RespSpec::Array(
                    (match range_bounds_spec(es.len() as int, start as int, stop as int) {
                        Some((s, e)) => zrange_vals(es, s, e),
                        None => Seq::<RespSpec>::empty(),
                    }),
                )
            },
            None => RespSpec::Array(Seq::<RespSpec>::empty()),
        }),
{
    match crate::table::tbl_get_ref(&db.zsets, set) {
        Some(z) => {
            proof {
                crate::table::lemma_tbl_index_props(db.zsets@, set@);
                let i0 = crate::table::tbl_index(db.zsets@, set@).unwrap();
                assert(zset_wf(db.zsets@[i0].1));
            }
            let ghost es = osl_entries(z.list);
            let len = osl_len(&z.list);
            let (s, e) = match lrange_bounds(len, start, stop) {
                Some(p) => p,
                None => {
                    let r = RedisValueRef::Array(Vec::new());
                    assert(vws(Seq::<RedisValueRef>::empty()) =~= Seq::<RespSpec>::empty());
                    return r;
                },
            };
            let ghost target = zrange_vals(es, s as int, e as int);
            let mut items: Vec<RedisValueRef> = Vec::new();
            let mut k: usize = s;
            while k <= e
                invariant
                    s <= k <= e + 1,
                    0 <= s && e < es.len(),
                    e < len && len == es.len(),
                    es == osl_entries(z.list),
                    target == zrange_vals(es, s as int, e as int),
                    vws(items@) =~= target.take(k - s),
                decreases e + 1 - k,
            {
                let ghost prev = items@;
                match osl_get_by_index(&z.list, k) {
                    Some(p) => {
                        let elem = RedisValueRef::String(p.1);
                        let ghost ev = vw(elem);
                        proof {
                            assert(ev == RespSpec::String(es[k as int].1));
                            assert(vws(prev).len() == k - s);
                        }
                        items.push(elem);
                        proof {
                            assert forall|m: int| 0 <= m < k - s + 1 implies vws(items@)[m]
                                == target.take(k - s + 1)[m] by {
                                if m < k - s {
                                    assert(items@[m] == prev[m]);
                                    assert(vws(prev)[m] == target.take(k - s)[m]);
                                } else {
                                    assert(target[m] == RespSpec::String(es[s + m].1));
                                }
                            }
                            assert(vws(items@) =~= target.take(k - s + 1));
                        }
                    },
                    None => {
                        proof {
                            assert(false);
                        }
                    },
                }
                k += 1;
            }
            assert(target.take(target.len() as int) =~= target);
            RedisValueRef::Array(items)
        },
        None => {
            let r = RedisValueRef::Array(Vec::new());
            assert(vws(Seq::<RedisValueRef>::empty()) =~= Seq::<RespSpec>::empty());
            r
        },
    }
}

/// The rank of `member` in the sorted set under `set`: its position in
/// the ascending walk, or a null reply when either is absent.
pub fn zrank(db: &RedisDb, set: &[u8], member: &Vec<u8>) -> (r: RedisValueRef)
    requires
        db_wf(*db),
    ensures
        vw(r) == (match tbl_get(db.zsets@, set@) {
            Some(z) => match tbl_get(z.map@, member@) {
                Some(sc) => RespSpec::Int(
                    find_entry(osl_entries(z.list), (sc, member@)).unwrap() as i64 as int,
                ),
                None => RespSpec::NullBulkString,
            },
            None => RespSpec::NullBulkString,
        }),
{
    match crate::table::tbl_get_ref(&db.zsets, set) {
        Some(z) => {
            proof {
                crate::table::lemma_tbl_index_props(db.zsets@, set@);
                let i0 = crate::table::tbl_index(db.zsets@, set@).unwrap();
                assert(zset_wf(db.zsets@[i0].1));
            }
            let list_len = osl_len(&z.list);
            match crate::table::tbl_get_ref(&z.map, member.as_slice()) {
                Some(sc) => {
                    proof {
                        assert(osl_entries(z.list).len() == list_len);
                        crate::table::lemma_tbl_index_props(z.map@, member@);
                        let j0 = crate::table::tbl_index(z.map@, member@).unwrap();
                        let es = osl_entries(z.list);
                        let i1 = choose|i: int|
                            0 <= i < es.len() && #[trigger] es[i] == (
                            z.map@[j0].1, z.map@[j0].0@);
                        lemma_find_entry_props(es, (*sc, member@));
                        assert(es[i1] == (*sc, member@));
                        assert(find_entry(es, (*sc, member@)) is Some);
                    }
                    match osl_rank(&z.list, *sc, member) {
                        Some(rank) => RedisValueRef::Int(rank as i64),
                        None => {
                            proof {
                                assert(false);
                            }
                            RedisValueRef::NullBulkString
                        },
                    }
                },
                None => RedisValueRef::NullBulkString,
            }
        },
        None => RedisValueRef::NullBulkString,
    }
}

/// How many members the sorted set under `set` holds.
pub fn zcard(db: &RedisDb, set: &[u8]) -> (r: RedisValueRef)
    ensures
        vw(r) == (match tbl_get(db.zsets@, set@) {
            Some(z) => RespSpec::Int(osl_entries(z.list).len() as i64 as int),
            None => RespSpec::Int(0),
        }),
{
    match crate::table::tbl_get_ref(&db.zsets, set) {
        Some(z) => RedisValueRef::Int(osl_len(&z.list) as i64),
        None => RedisValueRef::Int(0),
    }
}

/// The score bound to `member` in the sorted set under `set`, rendered in
/// decimal; a null reply when either is absent.
pub fn zscore(db: &RedisDb, set: &[u8], member: &[u8]) -> (r: RedisValueRef)
    ensures
        vw(r) == (match tbl_get(db.zsets@, set@) {
            Some(z) => match tbl_get(z.map@, member@) {
                Some(sc) => RespSpec::String(dec_rep(sc as nat)),
                None => RespSpec::NullBulkString,
            },
            None => RespSpec::NullBulkString,
        }),
{
    match crate::table::tbl_get_ref(&db.zsets, set) {
        Some(z) => match crate::table::tbl_get_ref(&z.map, member) {
            Some(sc) => RedisValueRef::String(u64_to_dec(*sc)),
            None => RedisValueRef::NullBulkString,
        },
        None => RedisValueRef::NullBulkString,
    }
}

/// The wire shapes of the members whose scores fall between the bounds,
/// ascending.
pub open spec fn score_range_vals(es: Seq<(u64, Seq<u8>)>, lo: u64, hi: u64) -> Seq<RespSpec>
    decreases es.len(),
{
    if es.len() == 0 {
        Seq::empty()
    } else {
        (if lo <= es[0].0 <= hi {
            seq![RespSpec::String(es[0].1)]
        } else {
            Seq::empty()
        }) + score_range_vals(es.drop_first(), lo, hi)
    }
}

/// Filtering one more node extends the filtered rendering at the back.
proof fn lemma_score_range_push(es: Seq<(u64, Seq<u8>)>, e: (u64, Seq<u8>), lo: u64, hi: u64)
    ensures
        score_range_vals(es.push(e), lo, hi) == score_range_vals(es, lo, hi) + (if lo <= e.0
            <= hi {
            seq![RespSpec::String(e.1)]
        } else {
            Seq::<RespSpec>::empty()
        }),
    decreases es.len(),
{
    let t = es.push(e);
    if es.len() == 0 {
        assert(t.drop_first() =~= Seq::<(u64, Seq<u8>)>::empty());
        assert(score_range_vals(Seq::<(u64, Seq<u8>)>::empty(), lo, hi)
            == Seq::<RespSpec>::empty());
        assert(score_range_vals(es, lo, hi) == Seq::<RespSpec>::empty());
        assert(t[0] == e);
        assert(score_range_vals(t, lo, hi) =~= score_range_vals(es, lo, hi) + (if lo <= e.0
            <= hi {
            seq![RespSpec::String(e.1)]
        } else {
            Seq::<RespSpec>::empty()
        }));
    } else {
        lemma_score_range_push(es.drop_first(), e, lo, hi);
        assert(t.drop_first() =~= es.drop_first().push(e));
        assert(t[0] == es[0]);
        assert(score_range_vals(t, lo, hi) =~= score_range_vals(es, lo, hi) + (if lo <= e.0
            <= hi {
            seq![RespSpec::String(e.1)]
        } else {
            Seq::<RespSpec>::empty()
        }));
    }
}

/// The members of the sorted set under `set` whose scores fall between
/// `lo` and `hi`, both inclusive, ascending; an absent set reads as an
/// empty array.
pub fn zrangebyscore(db: &RedisDb, set: &[u8], lo: u64, hi: u64) -> (r: RedisValueRef)
    requires
        db_wf(*db),
    ensures
        vw(r) == (match tbl_get(db.zsets@, set@) {
            Some(z) => RespSpec::Array(score_range_vals(osl_entries(z.list), lo, hi)),
            None => RespSpec::Array(Seq::<RespSpec>::empty()),
        }),
{
    match crate::table::tbl_get_ref(&db.zsets, set) {
        Some(z) => {
            let ghost es = osl_entries(z.list);
            let len = osl_len(&z.list);
            let mut items: Vec<RedisValueRef> = Vec::new();
            let mut k: usize = 0;
            while k < len
                invariant
                    0 <= k <= len,
                    len == es.len(),
                    es == osl_entries(z.list),
                    vws(items@) =~= score_range_vals(es.take(k as int), lo, hi),
                decreases len - k,
            {
                let ghost prev = items@;
                match osl_get_by_index(&z.list, k) {
                    Some(p) => {
                        proof {
                            lemma_score_range_push(es.take(k as int), es[k as int], lo, hi);
                            assert(es.take(k + 1) =~= es.take(k as int).push(es[k as int]));
                        }
                        if lo <= p.0 && p.0 <= hi {
                            let elem = RedisValueRef::String(p.1);
                            let ghost ev = vw(elem);
                            proof {
                                assert(ev == RespSpec::String(es[k as int].1));
                                assert(vws(prev).len() == score_range_vals(
                                    es.take(k as int),
                                    lo,
                                    hi,
                                ).len());
                            }
                            items.push(elem);
                            proof {
                                assert forall|m: int|
                                    0 <= m < items@.len() implies vws(items@)[m] == (vws(prev)
                                    + seq![ev])[m] by {
                                    if m < prev.len() {
                                        assert(items@[m] == prev[m]);
                                    } else {
                                        assert(vw(items@[m]) == ev);
                                    }
                                }
                                assert(vws(items@) =~= vws(prev) + seq![ev]);
                            }
                        } else {
                            proof {
                                assert(score_range_vals(es.take(k as int), lo, hi)
                                    + Seq::<RespSpec>::empty() =~= score_range_vals(
                                    es.take(k as int),
                                    lo,
                                    hi,
                                ));
                            }
                        }
                    },
                    None => {
                        proof {
                            assert(false);
                        }
                    },
                }
                k += 1;
            }
            assert(es.take(es.len() as int) =~= es);
            RedisValueRef::Array(items)
        },
        None => {
            let r = RedisValueRef::Array(Vec::new());
            assert(vws(Seq::<RedisValueRef>::empty()) =~= Seq::<RespSpec>::empty());
            r
        },
    }
}


/// Add idempotence: binding the same member with the same score twice
/// counts one the first time and zero the second, and leaves the same
/// score bound.
pub proof fn lemma_zadd_twice(
    db0: RedisDb,
    db1: RedisDb,
    db2: RedisDb,
    rv1: RespSpec,
    rv2: RespSpec,
    k: Seq<u8>,
    score: u64,
    member: Seq<u8>,
)
    requires
        zadd_post(db0, db1, rv1, k, score, member),
        zadd_post(db1, db2, rv2, k, score, member),
        (match tbl_get(db0.zsets@, k) {
            Some(z0) => !crate::table::tbl_has(z0.map@, member),
            None => true,
        }),
    ensures
        rv1 == RespSpec::Int(1),
        rv2 == RespSpec::Int(0),
        tbl_get(db2.zsets@, k) matches Some(z2) && tbl_get(z2.map@, member) == Some(score),
{
}

} // verus!
