//! Keyed in-memory tables.
//!
//! Every store in the library (balances, withdrawal records, open orders,
//! pools, reconciliation reports) is a vector of records with pairwise
//! distinct keys. This module gives the shared spec-level lookup function
//! and the lemmas that relate updates and insertions to it.

use vstd::prelude::*;

verus! {

/// A record stored in one of the library's keyed tables. The key is a pair
/// of character sequences; stores keyed by a single string leave the second
/// component empty.
pub trait Keyed {
    spec fn key(&self) -> (Seq<char>, Seq<char>);
}

pub open spec fn unique_keys<T: Keyed>(s: Seq<T>) -> bool {
    forall|i: int, j: int|
        #![trigger s[i].key(), s[j].key()]
        0 <= i < j < s.len() ==> s[i].key() != s[j].key()
}

/// The record under key `k`, if any.
pub open spec fn lookup<T: Keyed>(s: Seq<T>, k: (Seq<char>, Seq<char>)) -> Option<T>
    decreases s.len(),
{
    if s.len() == 0 {
        None
    } else if s.last().key() == k {
        Some(s.last())
    } else {
        lookup(s.drop_last(), k)
    }
}

/// A record at any index is what lookup under its key finds, keys being unique.
pub proof fn lemma_lookup_present<T: Keyed>(s: Seq<T>, i: int)
    requires
        unique_keys(s),
        0 <= i < s.len(),
    ensures
        lookup(s, s[i].key()) == Some(s[i]),
    decreases s.len(),
{
    if i == s.len() - 1 {
        assert(s.last() == s[i]);
    } else {
        assert(s.last().key() != s[i].key());
        assert(unique_keys(s.drop_last())) by {
            assert(forall|a: int, b: int|
                0 <= a < b < s.drop_last().len() ==> s.drop_last()[a] == s[a] && s.drop_last()[b]
                    == s[b]);
        }
        assert(s.drop_last()[i] == s[i]);
        lemma_lookup_present(s.drop_last(), i);
    }
}

/// If no index matches `k`, lookup finds nothing.
pub proof fn lemma_lookup_absent<T: Keyed>(s: Seq<T>, k: (Seq<char>, Seq<char>))
    requires
        forall|i: int| 0 <= i < s.len() ==> (#[trigger] s[i].key()) != k,
    ensures
        lookup(s, k) is None,
    decreases s.len(),
{
    if s.len() > 0 {
        assert(s.last() == s[s.len() - 1]);
        assert(forall|i: int|
            0 <= i < s.drop_last().len() ==> (#[trigger] s.drop_last()[i].key()) == s[i].key());
        lemma_lookup_absent(s.drop_last(), k);
    }
}

/// When lookup finds nothing, no index matches the key.
pub proof fn lemma_lookup_none_keys<T: Keyed>(s: Seq<T>, k: (Seq<char>, Seq<char>))
    requires
        lookup(s, k) is None,
    ensures
        forall|i: int| 0 <= i < s.len() ==> (#[trigger] s[i].key()) != k,
    decreases s.len(),
{
    if s.len() > 0 {
        assert(s.last().key() != k);
        lemma_lookup_none_keys(s.drop_last(), k);
        assert forall|i: int| 0 <= i < s.len() implies (#[trigger] s[i].key()) != k by {
            if i < s.len() - 1 {
                assert(s.drop_last()[i] == s[i]);
            } else {
                assert(s[i] == s.last());
            }
        }
    }
}

/// Whatever lookup finds sits somewhere in the table.
pub proof fn lemma_lookup_is_elem<T: Keyed>(s: Seq<T>, k: (Seq<char>, Seq<char>))
    requires
        lookup(s, k) is Some,
    ensures
        exists|i: int|
            0 <= i < s.len() && lookup(s, k) == Some(s[i]) && (#[trigger] s[i].key()) == k,
    decreases s.len(),
{
    if s.len() > 0 {
        if s.last().key() == k {
            assert(s[s.len() - 1] == s.last());
        } else {
            lemma_lookup_is_elem(s.drop_last(), k);
            let i = choose|i: int|
                0 <= i < s.drop_last().len() && lookup(s.drop_last(), k) == Some(
                    s.drop_last()[i],
                ) && (#[trigger] s.drop_last()[i].key()) == k;
            assert(s[i] == s.drop_last()[i]);
        }
    }
}

/// Replacing the record at index `i` by one with the same key changes lookup
/// under that key alone.
pub proof fn lemma_lookup_update<T: Keyed>(s: Seq<T>, i: int, e: T)
    requires
        unique_keys(s),
        0 <= i < s.len(),
        e.key() == s[i].key(),
    ensures
        unique_keys(s.update(i, e)),
        forall|k: (Seq<char>, Seq<char>)| #[trigger]
            lookup(s.update(i, e), k) == (if k == e.key() {
                Some(e)
            } else {
                lookup(s, k)
            }),
    decreases s.len(),
{
    let t = s.update(i, e);
    assert(forall|a: int| 0 <= a < s.len() && a != i ==> t[a] == s[a]);
    assert(unique_keys(t)) by {
        assert(forall|a: int|
            0 <= a < t.len() ==> (#[trigger] t[a].key()) == s[a].key());
    }
    if i == s.len() - 1 {
        assert(t.last() == e);
        assert(t.drop_last() =~= s.drop_last());
        assert forall|k: (Seq<char>, Seq<char>)| #[trigger]
            lookup(t, k) == (if k == e.key() {
                Some(e)
            } else {
                lookup(s, k)
            }) by {
            if k == e.key() {
                assert(lookup(t, k) == Some(e));
            } else {
                assert(lookup(t, k) == lookup(t.drop_last(), k));
                assert(lookup(s, k) == lookup(s.drop_last(), k));
            }
        }
    } else {
        assert(t.last() == s.last());
        assert(t.drop_last() =~= s.drop_last().update(i, e));
        assert(unique_keys(s.drop_last())) by {
            assert(forall|a: int|
                0 <= a < s.drop_last().len() ==> (#[trigger] s.drop_last()[a].key()) == s[a].key());
        }
        assert(s.drop_last()[i] == s[i]);
        lemma_lookup_update(s.drop_last(), i, e);
        assert(s.last().key() != e.key());
        assert forall|k: (Seq<char>, Seq<char>)| #[trigger]
            lookup(t, k) == (if k == e.key() {
                Some(e)
            } else {
                lookup(s, k)
            }) by {
            if t.last().key() == k {
                assert(k != e.key());
            } else {
                assert(lookup(t, k) == lookup(t.drop_last(), k));
            }
        }
    }
}

/// Removing the record at index `i` by swapping in the last record empties
/// lookup under its key alone.
pub proof fn lemma_lookup_remove_swap<T: Keyed>(s: Seq<T>, i: int)
    requires
        unique_keys(s),
        0 <= i < s.len(),
    ensures
        ({
            let s2 = s.update(i, s[s.len() - 1]).drop_last();
            &&& unique_keys(s2)
            &&& forall|k: (Seq<char>, Seq<char>)| #[trigger]
                lookup(s2, k) == (if k == s[i].key() {
                    None
                } else {
                    lookup(s, k)
                })
        }),
{
    let n = s.len();
    let s2 = s.update(i, s[n - 1]).drop_last();
    if i == n - 1 {
        assert(s2 =~= s.drop_last());
        assert(unique_keys(s2)) by {
            assert(forall|a: int| 0 <= a < s2.len() ==> (#[trigger] s2[a].key()) == s[a].key());
        }
        assert forall|k: (Seq<char>, Seq<char>)| #[trigger]
            lookup(s2, k) == (if k == s[i].key() {
                None
            } else {
                lookup(s, k)
            }) by {
            if k == s[i].key() {
                assert forall|a: int| 0 <= a < s2.len() implies (#[trigger] s2[a].key()) != k by {
                    assert(s2[a] == s[a]);
                }
                lemma_lookup_absent(s2, k);
            } else {
                assert(s.last().key() == s[i].key());
                assert(lookup(s, k) == lookup(s.drop_last(), k));
            }
        }
    } else {
        assert(forall|a: int| 0 <= a < s2.len() && a != i ==> s2[a] == s[a]);
        assert(s2[i] == s[n - 1]);
        assert(unique_keys(s2)) by {
            assert(forall|a: int|
                0 <= a < s2.len() ==> (#[trigger] s2[a].key()) == (if a == i {
                    s[n - 1].key()
                } else {
                    s[a].key()
                }));
        }
        assert forall|k: (Seq<char>, Seq<char>)| #[trigger]
            lookup(s2, k) == (if k == s[i].key() {
                None
            } else {
                lookup(s, k)
            }) by {
            if k == s[i].key() {
                assert forall|a: int| 0 <= a < s2.len() implies (#[trigger] s2[a].key()) != k by {
                    if a != i {
                        assert(s2[a] == s[a]);
                    }
                }
                lemma_lookup_absent(s2, k);
            } else if k == s[n - 1].key() {
                lemma_lookup_present(s2, i);
                lemma_lookup_present(s, n - 1);
            } else {
                match lookup(s, k) {
                    Some(e) => {
                        lemma_lookup_is_elem(s, k);
                        let j = choose|j: int|
                            0 <= j < s.len() && lookup(s, k) == Some(s[j]) && (
                            #[trigger] s[j].key()) == k;
                        assert(j != i && j != n - 1);
                        assert(s2[j] == s[j]);
                        lemma_lookup_present(s2, j);
                        lemma_lookup_present(s, j);
                    },
                    None => {
                        lemma_lookup_none_keys(s, k);
                        assert forall|a: int|
                            0 <= a < s2.len() implies (#[trigger] s2[a].key()) != k by {
                            if a != i {
                                assert(s2[a] == s[a]);
                            }
                        }
                        lemma_lookup_absent(s2, k);
                    },
                }
            }
        }
    }
}

/// Appending a record under a fresh key adds it to the table and changes
/// lookup under that key alone.
pub proof fn lemma_lookup_push<T: Keyed>(s: Seq<T>, e: T)
    requires
        unique_keys(s),
        forall|i: int| 0 <= i < s.len() ==> (#[trigger] s[i].key()) != e.key(),
    ensures
        unique_keys(s.push(e)),
        forall|k: (Seq<char>, Seq<char>)| #[trigger]
            lookup(s.push(e), k) == (if k == e.key() {
                Some(e)
            } else {
                lookup(s, k)
            }),
{
    let t = s.push(e);
    assert(t.last() == e);
    assert(t.drop_last() =~= s);
    assert(forall|a: int| 0 <= a < s.len() ==> t[a] == s[a]);
    assert(unique_keys(t)) by {
        assert(forall|a: int| 0 <= a < s.len() ==> (#[trigger] t[a].key()) == s[a].key());
        assert(t[t.len() - 1] == e);
    }
    assert forall|k: (Seq<char>, Seq<char>)| #[trigger]
        lookup(t, k) == (if k == e.key() {
            Some(e)
        } else {
            lookup(s, k)
        }) by {
        if k != e.key() {
            assert(lookup(t, k) == lookup(t.drop_last(), k));
        }
    }
}

} // verus!
