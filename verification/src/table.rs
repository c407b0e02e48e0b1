//! Association tables keyed by byte strings: the ground under the keyspace,
//! the expiry map, the waiter registries and the user registry.  A table is
//! a vector of pairs whose keys are pairwise distinct.
use vstd::prelude::*;

use crate::util::bytes_eq;

verus! {

/// The position of the first entry of `s` whose key reads `k`.
pub open spec fn tbl_index<V>(s: Seq<(Vec<u8>, V)>, k: Seq<u8>) -> Option<int>
    decreases s.len(),
{
    if s.len() == 0 {
        None
    } else if s[0].0@ == k {
        Some(0)
    } else {
        match tbl_index(s.drop_first(), k) {
            Some(i) => Some(i + 1),
            None => None,
        }
    }
}

/// Whether some entry of `s` has key `k`.
pub open spec fn tbl_has<V>(s: Seq<(Vec<u8>, V)>, k: Seq<u8>) -> bool {
    tbl_index(s, k) is Some
}

/// The value stored under `k`, if any.
pub open spec fn tbl_get<V>(s: Seq<(Vec<u8>, V)>, k: Seq<u8>) -> Option<V> {
    match tbl_index(s, k) {
        Some(i) => Some(s[i].1),
        None => None,
    }
}

/// A well-formed table: keys are pairwise distinct.
pub open spec fn tbl_wf<V>(s: Seq<(Vec<u8>, V)>) -> bool {
    forall|i: int, j: int| 0 <= i < j < s.len() ==> s[i].0@ != s[j].0@
}

/// Every value in `post` was already a value in `pre`.
pub open spec fn values_from<V>(pre: Seq<(Vec<u8>, V)>, post: Seq<(Vec<u8>, V)>) -> bool {
    forall|i: int| #![trigger post[i]]
        0 <= i < post.len() ==> exists|j: int| 0 <= j < pre.len() && post[i].1 == pre[j].1
}

/// Every value in `post` was a value in `pre`, or is the value `v`.
pub open spec fn values_from_or<V>(
    pre: Seq<(Vec<u8>, V)>,
    post: Seq<(Vec<u8>, V)>,
    v: V,
) -> bool {
    forall|i: int| #![trigger post[i]]
        0 <= i < post.len() ==> post[i].1 == v || exists|j: int|
            0 <= j < pre.len() && post[i].1 == pre[j].1
}

/// What `tbl_index` finds: a first match, in range; or no match at all.
pub proof fn lemma_tbl_index_props<V>(s: Seq<(Vec<u8>, V)>, k: Seq<u8>)
    ensures
        match tbl_index(s, k) {
            Some(i) => 0 <= i < s.len() && s[i].0@ == k && forall|j: int|
                0 <= j < i ==> s[j].0@ != k,
            None => forall|j: int| 0 <= j < s.len() ==> s[j].0@ != k,
        },
    decreases s.len(),
{
    if s.len() > 0 && s[0].0@ != k {
        lemma_tbl_index_props(s.drop_first(), k);
        assert forall|j: int| 1 <= j < s.len() implies s[j].0@ == s.drop_first()[j - 1].0@ by {}
    }
}

/// A witness of a first match fixes what `tbl_index` returns.
pub proof fn lemma_tbl_first_match<V>(s: Seq<(Vec<u8>, V)>, k: Seq<u8>, i: int)
    requires
        0 <= i < s.len(),
        s[i].0@ == k,
        forall|j: int| 0 <= j < i ==> s[j].0@ != k,
    ensures
        tbl_index(s, k) == Some(i),
    decreases s.len(),
{
    if i > 0 {
        lemma_tbl_first_match(s.drop_first(), k, i - 1);
    }
}

/// No match anywhere fixes `tbl_index` at nothing.
pub proof fn lemma_tbl_no_match<V>(s: Seq<(Vec<u8>, V)>, k: Seq<u8>)
    requires
        forall|j: int| 0 <= j < s.len() ==> s[j].0@ != k,
    ensures
        tbl_index(s, k) is None,
{
    lemma_tbl_index_props(s, k);
    match tbl_index(s, k) {
        Some(i) => {
            assert(s[i].0@ == k);
        },
        None => {},
    }
}

/// Tables whose key columns agree entry by entry index alike.
pub proof fn lemma_tbl_same_keys<V, W>(s: Seq<(Vec<u8>, V)>, t: Seq<(Vec<u8>, W)>, k: Seq<u8>)
    requires
        s.len() == t.len(),
        forall|i: int| 0 <= i < s.len() ==> s[i].0@ == #[trigger] t[i].0@,
    ensures
        tbl_index(s, k) == tbl_index(t, k),
    decreases s.len(),
{
    if s.len() > 0 && s[0].0@ != k {
        assert(t[0].0@ == s[0].0@);
        lemma_tbl_same_keys(s.drop_first(), t.drop_first(), k);
        assert forall|i: int| 0 <= i < s.drop_first().len() implies s.drop_first()[i].0@
            == #[trigger] t.drop_first()[i].0@ by {
            assert(s.drop_first()[i].0@ == s[i + 1].0@);
        }
    }
}

/// Find the entry holding key `k`.
pub fn tbl_find<V>(items: &Vec<(Vec<u8>, V)>, k: &[u8]) -> (r: Option<usize>)
    ensures
        match r {
            Some(i) => tbl_index(items@, k@) == Some(i as int),
            None => tbl_index(items@, k@) is None,
        },
{
    let mut i: usize = 0;
    while i < items.len()
        invariant
            0 <= i <= items@.len(),
            forall|j: int| 0 <= j < i ==> items@[j].0@ != k@,
        decreases items@.len() - i,
    {
        if bytes_eq(items[i].0.as_slice(), k) {
            proof {
                lemma_tbl_first_match(items@, k@, i as int);
            }
            return Some(i);
        }
        i += 1;
    }
    proof {
        lemma_tbl_no_match(items@, k@);
    }
    None
}

/// A borrowed view of the value under `k`, if any.
pub fn tbl_get_ref<'a, V>(items: &'a Vec<(Vec<u8>, V)>, k: &[u8]) -> (r: Option<&'a V>)
    ensures
        match r {
            Some(v) => tbl_get(items@, k@) == Some(*v),
            None => tbl_get(items@, k@) is None,
        },
{
    match tbl_find(items, k) {
        Some(i) => {
            proof {
                lemma_tbl_index_props(items@, k@);
            }
            Some(&items[i].1)
        },
        None => None,
    }
}

/// A mutable borrow of the value in entry `i`; the keys stay as they were.
pub fn tbl_value_mut<'a, V>(items: &'a mut Vec<(Vec<u8>, V)>, i: usize) -> (r: &'a mut V)
    requires
        i < old(items)@.len(),
    ensures
        *r == old(items)@[i as int].1,
        final(items)@ == old(items)@.update(
            i as int,
            (old(items)@[i as int].0, *final(r)),
        ),
{
    &mut items[i].1
}

/// Bind `k` to `v`, replacing any entry that held it.
pub fn tbl_set<V>(items: &mut Vec<(Vec<u8>, V)>, k: &[u8], v: V)
    requires
        tbl_wf(old(items)@),
    ensures
        tbl_wf(final(items)@),
        tbl_get(final(items)@, k@) == Some(v),
        forall|k2: Seq<u8>| k2 != k@ ==> #[trigger] tbl_get(final(items)@, k2) == tbl_get(
            old(items)@,
            k2,
        ),
        values_from_or(old(items)@, final(items)@, v),
        final(items)@.len() == old(items)@.len() + (if tbl_has(old(items)@, k@) {
            0int
        } else {
            1int
        }),
{
    let ghost s0 = items@;
    match tbl_find(items, k) {
        Some(i) => {
            proof {
                lemma_tbl_index_props(s0, k@);
            }
            let slot = tbl_value_mut(items, i);
            *slot = v;
            proof {
                let s1 = items@;
                assert(s1 == s0.update(i as int, (s0[i as int].0, v)));
                assert(tbl_wf(s1)) by {
                    assert forall|a: int, b: int| 0 <= a < b < s1.len() implies s1[a].0@
                        != s1[b].0@ by {
                        assert(s1[a].0@ == s0[a].0@ && s1[b].0@ == s0[b].0@);
                    }
                }
                assert forall|i2: int| 0 <= i2 < s0.len() implies s0[i2].0@
                    == #[trigger] s1[i2].0@ by {}
                assert forall|k2: Seq<u8>| k2 != k@ implies #[trigger] tbl_get(s1, k2)
                    == tbl_get(s0, k2) by {
                    lemma_tbl_same_keys(s0, s1, k2);
                    lemma_tbl_index_props(s0, k2);
                }
                lemma_tbl_same_keys(s0, s1, k@);
                lemma_tbl_index_props(s1, k@);
                assert(values_from_or(s0, s1, v)) by {
                    assert forall|i2: int| #![trigger s1[i2]]
                        0 <= i2 < s1.len() implies s1[i2].1 == v || exists|j: int|
                            0 <= j < s0.len() && s1[i2].1 == s0[j].1 by {
                        if i2 != i {
                            assert(s1[i2].1 == s0[i2].1);
                        }
                    }
                }
            }
        },
        None => {
            let mut key: Vec<u8> = Vec::new();
            crate::parser::extend_lit(&mut key, k);
            assert(key@ =~= k@);
            items.push((key, v));
            proof {
                let s1 = items@;
                lemma_tbl_index_props(s0, k@);
                assert(tbl_wf(s1)) by {
                    assert forall|a: int, b: int| 0 <= a < b < s1.len() implies s1[a].0@
                        != s1[b].0@ by {
                        if b < s0.len() {
                            assert(s1[a] == s0[a] && s1[b] == s0[b]);
                        } else {
                            assert(s1[a] == s0[a] && s1[b].0@ == k@);
                        }
                    }
                }
                lemma_tbl_first_match(s1, k@, s0.len() as int);
                assert forall|k2: Seq<u8>| k2 != k@ implies #[trigger] tbl_get(s1, k2)
                    == tbl_get(s0, k2) by {
                    lemma_tbl_push_other(s0, (s1[s0.len() as int]), k2);
                }
                assert(values_from_or(s0, s1, v)) by {
                    assert forall|i2: int| #![trigger s1[i2]]
                        0 <= i2 < s1.len() implies s1[i2].1 == v || exists|j: int|
                            0 <= j < s0.len() && s1[i2].1 == s0[j].1 by {
                        if i2 < s0.len() {
                            assert(s1[i2].1 == s0[i2].1);
                        }
                    }
                }
            }
        },
    }
}

/// Take the value bound to `k` out of the table, unbinding the key.
pub fn tbl_take<V>(items: &mut Vec<(Vec<u8>, V)>, k: &[u8]) -> (r: Option<V>)
    requires
        tbl_wf(old(items)@),
    ensures
        tbl_wf(final(items)@),
        r == tbl_get(old(items)@, k@),
        tbl_get(final(items)@, k@) is None,
        forall|k2: Seq<u8>| k2 != k@ ==> #[trigger] tbl_get(final(items)@, k2) == tbl_get(
            old(items)@,
            k2,
        ),
        values_from(old(items)@, final(items)@),
{
    let ghost s0 = items@;
    match tbl_find(items, k) {
        Some(i) => {
            proof {
                lemma_tbl_index_props(s0, k@);
            }
            let pair = items.remove(i);
            proof {
                let s1 = items@;
                assert(s1 == s0.remove(i as int));
                assert(tbl_wf(s1)) by {
                    assert forall|a: int, b: int| 0 <= a < b < s1.len() implies s1[a].0@
                        != s1[b].0@ by {
                        let a0 = if a < i as int {
                            a
                        } else {
                            a + 1
                        };
                        let b0 = if b < i as int {
                            b
                        } else {
                            b + 1
                        };
                        assert(s1[a] == s0[a0] && s1[b] == s0[b0]);
                    }
                }
                assert forall|k2: Seq<u8>| true implies #[trigger] tbl_get(s1, k2) == (if k2
                    == k@ {
                    None
                } else {
                    tbl_get(s0, k2)
                }) by {
                    lemma_tbl_remove_effect(s0, i as int, k2);
                }
                assert(values_from(s0, s1)) by {
                    assert forall|i2: int| #![trigger s1[i2]]
                        0 <= i2 < s1.len() implies exists|j: int|
                            0 <= j < s0.len() && s1[i2].1 == s0[j].1 by {
                        let j0 = if i2 < i as int {
                            i2
                        } else {
                            i2 + 1
                        };
                        assert(s1[i2].1 == s0[j0].1);
                    }
                }
            }
            Some(pair.1)
        },
        None => {
            proof {
                lemma_tbl_index_props(s0, k@);
                assert(values_from(s0, items@)) by {
                    assert forall|i2: int| #![trigger items@[i2]]
                        0 <= i2 < items@.len() implies exists|j: int|
                            0 <= j < s0.len() && items@[i2].1 == s0[j].1 by {
                        assert(items@[i2].1 == s0[i2].1);
                    }
                }
            }
            None
        },
    }
}

/// Pushing an entry with a different key changes nothing a lookup sees.
pub proof fn lemma_tbl_push_other<V>(s: Seq<(Vec<u8>, V)>, p: (Vec<u8>, V), k: Seq<u8>)
    requires
        p.0@ != k,
    ensures
        tbl_index(s.push(p), k) == tbl_index(s, k),
        tbl_get(s.push(p), k) == tbl_get(s, k),
    decreases s.len(),
{
    let t = s.push(p);
    if s.len() == 0 {
        assert(t[0].0@ != k);
        assert(t.drop_first() =~= Seq::<(Vec<u8>, V)>::empty());
        assert(tbl_index(t.drop_first(), k) is None);
        assert(tbl_index(t, k) is None);
    } else {
        assert(t[0] == s[0]);
        if s[0].0@ != k {
            lemma_tbl_push_other(s.drop_first(), p, k);
            assert(t.drop_first() =~= s.drop_first().push(p));
            assert(tbl_index(t, k) == tbl_index(s, k));
        } else {
            assert(tbl_index(t, k) == Some(0int) && tbl_index(s, k) == Some(0int));
        }
        lemma_tbl_index_props(s, k);
        match tbl_index(s, k) {
            Some(i) => {
                assert(t[i] == s[i]);
            },
            None => {},
        }
    }
}

/// Drop the binding of `k`, if there is one.
pub fn tbl_remove<V>(items: &mut Vec<(Vec<u8>, V)>, k: &[u8])
    requires
        tbl_wf(old(items)@),
    ensures
        tbl_wf(final(items)@),
        tbl_get(final(items)@, k@) is None,
        forall|k2: Seq<u8>| k2 != k@ ==> #[trigger] tbl_get(final(items)@, k2) == tbl_get(
            old(items)@,
            k2,
        ),
        values_from(old(items)@, final(items)@),
{
    let ghost s0 = items@;
    match tbl_find(items, k) {
        Some(i) => {
            proof {
                lemma_tbl_index_props(s0, k@);
            }
            items.remove(i);
            proof {
                let s1 = items@;
                assert(s1 == s0.remove(i as int));
                assert(tbl_wf(s1)) by {
                    assert forall|a: int, b: int| 0 <= a < b < s1.len() implies s1[a].0@
                        != s1[b].0@ by {
                        let a0 = if a < i as int {
                            a
                        } else {
                            a + 1
                        };
                        let b0 = if b < i as int {
                            b
                        } else {
                            b + 1
                        };
                        assert(s1[a] == s0[a0] && s1[b] == s0[b0]);
                    }
                }
                assert forall|k2: Seq<u8>| true implies #[trigger] tbl_get(s1, k2) == (if k2 == k@ {
                    None
                } else {
                    tbl_get(s0, k2)
                }) by {
                    lemma_tbl_remove_effect(s0, i as int, k2);
                }
                assert(values_from(s0, s1)) by {
                    assert forall|i2: int| #![trigger s1[i2]]
                        0 <= i2 < s1.len() implies exists|j: int|
                            0 <= j < s0.len() && s1[i2].1 == s0[j].1 by {
                        let j0 = if i2 < i as int {
                            i2
                        } else {
                            i2 + 1
                        };
                        assert(s1[i2].1 == s0[j0].1);
                    }
                }
            }
        },
        None => {
            proof {
                lemma_tbl_index_props(s0, k@);
                assert(values_from(s0, items@)) by {
                    assert forall|i2: int| #![trigger items@[i2]]
                        0 <= i2 < items@.len() implies exists|j: int|
                            0 <= j < s0.len() && items@[i2].1 == s0[j].1 by {
                        assert(items@[i2].1 == s0[i2].1);
                    }
                }
            }
        },
    }
}

/// Removing an entry of a well-formed table unbinds its key and only it.
pub proof fn lemma_tbl_remove_effect<V>(s: Seq<(Vec<u8>, V)>, i: int, k: Seq<u8>)
    requires
        tbl_wf(s),
        0 <= i < s.len(),
    ensures
        tbl_get(s.remove(i), k) == (if k == s[i].0@ {
            None::<V>
        } else {
            tbl_get(s, k)
        }),
{
    let t = s.remove(i);
    lemma_tbl_index_props(s, k);
    lemma_tbl_index_props(t, k);
    if k == s[i].0@ {
        match tbl_index(t, k) {
            Some(j) => {
                let j0 = if j < i {
                    j
                } else {
                    j + 1
                };
                assert(t[j] == s[j0]);
                assert(s[j0].0@ == k && s[i].0@ == k && j0 != i);
            },
            None => {},
        }
    } else {
        match tbl_index(s, k) {
            Some(j) => {
                assert(j != i);
                let j1 = if j < i {
                    j
                } else {
                    j - 1
                };
                assert(t[j1] == s[j]);
                assert forall|m: int| 0 <= m < j1 implies t[m].0@ != k by {
                    let m0 = if m < i {
                        m
                    } else {
                        m + 1
                    };
                    assert(t[m] == s[m0]);
                }
                lemma_tbl_first_match(t, k, j1);
            },
            None => {
                assert forall|m: int| 0 <= m < t.len() implies t[m].0@ != k by {
                    let m0 = if m < i {
                        m
                    } else {
                        m + 1
                    };
                    assert(t[m] == s[m0]);
                }
                lemma_tbl_no_match(t, k);
            },
        }
    }
}

} // verus!
