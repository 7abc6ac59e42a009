//! The query registry: parsed query pairs keep their order and may repeat a
//! key; the mapping the view works from collapses duplicates so that the
//! last write wins.  A collapsed registry keeps each key at its first
//! occurrence's position, carrying the value of its last occurrence.

use vstd::prelude::*;

use crate::registry::{
    entry_views, lemma_entry_views_index, lemma_lookup_none_push_unique, lemma_no_key_lookup_none,
    lookup, unique_keys,
};

verus! {

/// The value of the last pair with this key, if any: the last write wins.
pub open spec fn last_value(q: Seq<(Seq<char>, Seq<char>)>, key: Seq<char>) -> Option<Seq<char>>
    decreases q.len(),
{
    if q.len() == 0 {
        None
    } else if q.last().0 == key {
        Some(q.last().1)
    } else {
        last_value(q.drop_last(), key)
    }
}

/// Looks a key up among the parsed pairs; of repeated keys the last wins.
pub fn query_get(q: &Vec<(String, String)>, key: &str) -> (r: Option<String>)
    ensures
        match r {
            Some(v) => last_value(entry_views(q@), key@) == Some(v@),
            None => last_value(entry_views(q@), key@) is None,
        },
{
    let mut i: usize = q.len();
    proof {
        assert(entry_views(q@).take(q@.len() as int) =~= entry_views(q@));
    }
    while i > 0
        invariant
            i <= q@.len(),
            last_value(entry_views(q@), key@) == last_value(
                entry_views(q@).take(i as int),
                key@,
            ),
        decreases i,
    {
        let hit = crate::str_eq(q[i - 1].0.as_str(), key);
        proof {
            let qv = entry_views(q@);
            lemma_entry_views_index(q@, i as int - 1);
            assert(qv.take(i as int).last() == qv[i as int - 1]);
            assert(qv.take(i as int).drop_last() =~= qv.take(i as int - 1));
        }
        if hit {
            return Some(q[i - 1].1.clone());
        }
        i = i - 1;
    }
    proof {
        assert(entry_views(q@).take(0).len() == 0);
    }
    None
}

/// Replaces the value under `k` wherever `k` occurs.
pub open spec fn update_key(
    c: Seq<(Seq<char>, Seq<char>)>,
    k: Seq<char>,
    v: Seq<char>,
) -> Seq<(Seq<char>, Seq<char>)> {
    Seq::new(c.len(), |i: int| if c[i].0 == k { (k, v) } else { c[i] })
}

/// The collapsed registry: keys keep their first occurrence's position, and
/// each carries the value of its last occurrence.
pub open spec fn spec_collapse(q: Seq<(Seq<char>, Seq<char>)>) -> Seq<(Seq<char>, Seq<char>)>
    decreases q.len(),
{
    if q.len() == 0 {
        Seq::empty()
    } else {
        let c = spec_collapse(q.drop_last());
        if lookup(c, q.last().0) is Some {
            update_key(c, q.last().0, q.last().1)
        } else {
            c.push(q.last())
        }
    }
}

/// Finds the position of `key` among the collapsed pairs.
fn find_key(out: &Vec<(String, String)>, key: &str) -> (r: Option<usize>)
    ensures
        match r {
            Some(j) => j < out@.len() && entry_views(out@)[j as int].0 == key@,
            None => forall|t: int|
                0 <= t < out@.len() ==> (#[trigger] entry_views(out@)[t]).0 != key@,
        },
{
    let mut j: usize = 0;
    while j < out.len()
        invariant
            j <= out@.len(),
            forall|t: int| 0 <= t < j ==> (#[trigger] entry_views(out@)[t]).0 != key@,
        decreases out@.len() - j,
    {
        let hit = crate::str_eq(out[j].0.as_str(), key);
        proof {
            lemma_entry_views_index(out@, j as int);
        }
        if hit {
            return Some(j);
        }
        j = j + 1;
    }
    None
}

/// Collapses the parsed pairs into the registry the view works from: keys
/// unique, the last write winning.
pub fn collapse(q: &Vec<(String, String)>) -> (c: Vec<(String, String)>)
    ensures
        entry_views(c@) == spec_collapse(entry_views(q@)),
        unique_keys(entry_views(c@)),
{
    let mut out: Vec<(String, String)> = Vec::new();
    let mut i: usize = 0;
    proof {
        assert(entry_views(q@).take(0) =~= Seq::<(Seq<char>, Seq<char>)>::empty());
        assert(entry_views(out@) =~= spec_collapse(entry_views(q@).take(0)));
    }
    while i < q.len()
        invariant
            i <= q@.len(),
            entry_views(out@) == spec_collapse(entry_views(q@).take(i as int)),
            unique_keys(entry_views(out@)),
        decreases q@.len() - i,
    {
        let k = q[i].0.clone();
        let v = q[i].1.clone();
        let ghost pre = entry_views(out@);
        proof {
            let qv = entry_views(q@);
            lemma_entry_views_index(q@, i as int);
            assert(qv.take(i as int + 1).drop_last() =~= qv.take(i as int));
            assert(qv.take(i as int + 1).last() == qv[i as int]);
        }
        match find_key(&out, k.as_str()) {
            Some(j) => {
                proof {
                    assert(pre[j as int].0 == k@);
                }
                out[j] = (k, v);
                proof {
                    assert(lookup(pre, entry_views(q@)[i as int].0) is Some) by {
                        lemma_lookup_some_witness(pre, j as int);
                    }
                    assert(entry_views(out@) =~= update_key(pre, k@, v@));
                    assert(unique_keys(entry_views(out@))) by {
                        assert(forall|t: int|
                            0 <= t < pre.len() ==> (#[trigger] update_key(pre, k@, v@)[t]).0
                                == pre[t].0);
                    }
                }
            },
            None => {
                proof {
                    lemma_no_key_lookup_none(pre, k@);
                    lemma_lookup_none_push_unique(pre, k@, v@);
                }
                out.push((k, v));
                proof {
                    crate::registry::lemma_entry_views_push(
                        out@.drop_last(),
                        out@.last(),
                    );
                    assert(out@.drop_last() =~= out@.take(out@.len() - 1));
                    assert(entry_views(out@) =~= pre.push((k@, v@)));
                }
            },
        }
        i = i + 1;
    }
    proof {
        assert(entry_views(q@).take(q@.len() as int) =~= entry_views(q@));
    }
    out
}

/// An entry at `j` makes the lookup of its key succeed.
proof fn lemma_lookup_some_witness(entries: Seq<(Seq<char>, Seq<char>)>, j: int)
    requires
        0 <= j < entries.len(),
    ensures
        lookup(entries, entries[j].0) is Some,
    decreases entries.len(),
{
    if j == 0 {
    } else {
        lemma_lookup_some_witness(entries.drop_first(), j - 1);
        assert(entries.drop_first()[j - 1] == entries[j]);
    }
}

} // verus!
