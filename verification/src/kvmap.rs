//! The mapping model shared by both entity stores: a sequence of
//! key/value entries, viewed as a finite map from key to value.

use vstd::prelude::*;

verus! {

/// Keys of the entry sequence are pairwise distinct.
pub open spec fn unique_keys<V>(s: Seq<(Seq<char>, V)>) -> bool {
    forall|i: int, j: int| 0 <= i < j < s.len() ==> (#[trigger] s[i]).0 != (#[trigger] s[j]).0
}

/// Some entry carries key `k`.
pub open spec fn seq_has_key<V>(s: Seq<(Seq<char>, V)>, k: Seq<char>) -> bool {
    exists|i: int| 0 <= i < s.len() && (#[trigger] s[i]).0 == k
}

/// The finite map that an entry sequence denotes; a later entry for the
/// same key wins.
pub open spec fn map_of<V>(s: Seq<(Seq<char>, V)>) -> Map<Seq<char>, V>
    decreases s.len(),
{
    if s.len() == 0 {
        Map::empty()
    } else {
        map_of(s.drop_last()).insert(s.last().0, s.last().1)
    }
}

/// The entry sequence of a vector of owned pairs, each side taken to its view.
pub open spec fn entries_view<V: View>(s: Seq<(String, V)>) -> Seq<(Seq<char>, V::V)> {
    Seq::new(s.len(), |i: int| (s[i].0@, s[i].1@))
}

/// A key is in the denoted map exactly when some entry carries it.
pub proof fn lemma_map_of_contains<V>(s: Seq<(Seq<char>, V)>, k: Seq<char>)
    ensures
        map_of(s).contains_key(k) <==> seq_has_key(s, k),
    decreases s.len(),
{
    if s.len() == 0 {
    } else {
        let dl = s.drop_last();
        lemma_map_of_contains(dl, k);
        if s.last().0 == k {
            assert(s[s.len() - 1].0 == k);
            assert(seq_has_key(s, k));
        } else {
            if seq_has_key(dl, k) {
                let i = choose|i: int| 0 <= i < dl.len() && (#[trigger] dl[i]).0 == k;
                assert(s[i].0 == k);
            }
            if seq_has_key(s, k) {
                let i = choose|i: int| 0 <= i < s.len() && (#[trigger] s[i]).0 == k;
                assert(i < s.len() - 1);
                assert(dl[i].0 == k);
            }
        }
    }
}

/// With distinct keys, the denoted map sends each entry's key to its value.
pub proof fn lemma_map_of_index<V>(s: Seq<(Seq<char>, V)>, i: int)
    requires
        unique_keys(s),
        0 <= i < s.len(),
    ensures
        map_of(s).contains_key(s[i].0),
        map_of(s)[s[i].0] == s[i].1,
    decreases s.len(),
{
    let dl = s.drop_last();
    if i == s.len() - 1 {
    } else {
        assert(unique_keys(dl)) by {
            assert(forall|a: int, b: int|
                0 <= a < b < dl.len() ==> (#[trigger] dl[a]).0 != (#[trigger] dl[b]).0) by {
                assert(forall|a: int| 0 <= a < dl.len() ==> dl[a] == s[a]);
            }
        }
        lemma_map_of_index(dl, i);
        assert(s[i].0 != s.last().0);
    }
}

/// Appending an entry inserts its key.
pub proof fn lemma_map_of_push<V>(s: Seq<(Seq<char>, V)>, k: Seq<char>, v: V)
    ensures
        map_of(s.push((k, v))) == map_of(s).insert(k, v),
{
    assert(s.push((k, v)).drop_last() =~= s);
    assert(s.push((k, v)).last() == (k, v));
}

/// Replacing the value of one entry, keeping its key, inserts over that key.
pub proof fn lemma_map_of_update<V>(s: Seq<(Seq<char>, V)>, i: int, v: V)
    requires
        unique_keys(s),
        0 <= i < s.len(),
    ensures
        map_of(s.update(i, (s[i].0, v))) == map_of(s).insert(s[i].0, v),
    decreases s.len(),
{
    let k = s[i].0;
    let t = s.update(i, (k, v));
    let dl = s.drop_last();
    if i == s.len() - 1 {
        assert(t.drop_last() =~= dl);
        assert(t.last() == (k, v));
        assert(map_of(t) == map_of(dl).insert(k, v));
        assert(map_of(dl).insert(k, s[i].1).insert(k, v) =~= map_of(dl).insert(k, v));
    } else {
        assert(unique_keys(dl)) by {
            assert(forall|a: int| 0 <= a < dl.len() ==> dl[a] == s[a]);
        }
        lemma_map_of_update(dl, i, v);
        assert(t.drop_last() =~= dl.update(i, (k, v)));
        assert(t.last() == s.last());
        assert(k != s.last().0);
        assert(map_of(dl).insert(k, v).insert(s.last().0, s.last().1)
            =~= map_of(dl).insert(s.last().0, s.last().1).insert(k, v));
    }
}

/// Removing one entry removes its key.
pub proof fn lemma_map_of_remove<V>(s: Seq<(Seq<char>, V)>, i: int)
    requires
        unique_keys(s),
        0 <= i < s.len(),
    ensures
        map_of(s.remove(i)) == map_of(s).remove(s[i].0),
    decreases s.len(),
{
    let k = s[i].0;
    let dl = s.drop_last();
    assert(unique_keys(dl)) by {
        assert(forall|a: int| 0 <= a < dl.len() ==> dl[a] == s[a]);
    }
    if i == s.len() - 1 {
        assert(s.remove(i) =~= dl);
        assert(!seq_has_key(dl, k)) by {
            if seq_has_key(dl, k) {
                let j = choose|j: int| 0 <= j < dl.len() && (#[trigger] dl[j]).0 == k;
                assert(s[j].0 == s[i].0);
            }
        }
        lemma_map_of_contains(dl, k);
        assert(map_of(dl).insert(k, s[i].1).remove(k) =~= map_of(dl));
    } else {
        lemma_map_of_remove(dl, i);
        assert(s.remove(i).drop_last() =~= dl.remove(i));
        assert(s.remove(i).last() == s.last());
        assert(map_of(s.remove(i)) == map_of(dl.remove(i)).insert(s.last().0, s.last().1));
        assert(k != s.last().0);
        assert(map_of(dl).remove(k).insert(s.last().0, s.last().1)
            =~= map_of(dl).insert(s.last().0, s.last().1).remove(k));
    }
}

/// Every key of a sequence of creations is fresh at its own step: absent
/// from the mapping into which it is inserted.
pub open spec fn all_fresh<V>(m: Map<Seq<char>, V>, ops: Seq<(Seq<char>, V)>) -> bool
    decreases ops.len(),
{
    if ops.len() == 0 {
        true
    } else {
        !m.contains_key(ops[0].0) && all_fresh(m.insert(ops[0].0, ops[0].1), ops.skip(1))
    }
}

/// The mapping left by a sequence of creations.
pub open spec fn apply_creates<V>(m: Map<Seq<char>, V>, ops: Seq<(Seq<char>, V)>) -> Map<
    Seq<char>,
    V,
>
    decreases ops.len(),
{
    if ops.len() == 0 {
        m
    } else {
        apply_creates(m.insert(ops[0].0, ops[0].1), ops.skip(1))
    }
}

/// Two successive successful creations never hand out the same identifier.
pub proof fn lemma_two_creates_distinct<V>(
    m: Map<Seq<char>, V>,
    k1: Seq<char>,
    v1: V,
    k2: Seq<char>,
)
    requires
        !m.contains_key(k1),
        !m.insert(k1, v1).contains_key(k2),
    ensures
        k1 != k2,
{
}

/// In any serialization of creations — any order the store lock allows —
/// the identifiers handed out are pairwise distinct and distinct from
/// every identifier already stored, and the final mapping holds exactly
/// the old records and the created ones, each under its own identifier.
pub proof fn lemma_creates_unique<V>(m: Map<Seq<char>, V>, ops: Seq<(Seq<char>, V)>)
    requires
        all_fresh(m, ops),
    ensures
        forall|a: int, b: int|
            0 <= a < b < ops.len() ==> (#[trigger] ops[a]).0 != (#[trigger] ops[b]).0,
        forall|a: int| 0 <= a < ops.len() ==> !m.contains_key((#[trigger] ops[a]).0),
        forall|a: int|
            0 <= a < ops.len() ==> apply_creates(m, ops).contains_key((#[trigger] ops[a]).0)
                && apply_creates(m, ops)[ops[a].0] == ops[a].1,
        forall|k: Seq<char>|
            !seq_has_key(ops, k) ==> (apply_creates(m, ops).contains_key(k)
                <==> m.contains_key(k)) && (m.contains_key(k) ==> apply_creates(m, ops)[k]
                == m[k]),
    decreases ops.len(),
{
    if ops.len() == 0 {
    } else {
        let k0 = ops[0].0;
        let m1 = m.insert(k0, ops[0].1);
        let rest = ops.skip(1);
        lemma_creates_unique(m1, rest);
        assert(forall|a: int| 1 <= a < ops.len() ==> ops[a] == rest[a - 1]);
        assert(apply_creates(m, ops) == apply_creates(m1, rest));

        // keys after the first differ from the first and are absent from `m`
        assert forall|b: int| 1 <= b < ops.len() implies (#[trigger] ops[b]).0 != k0
            && !m.contains_key(ops[b].0) by {
            assert(rest[b - 1] == ops[b]);
            assert(!m1.contains_key(rest[b - 1].0));
        }

        // pairwise distinctness
        assert forall|a: int, b: int|
            0 <= a < b < ops.len() implies (#[trigger] ops[a]).0 != (#[trigger] ops[b]).0 by {
            if a >= 1 {
                assert(rest[a - 1] == ops[a]);
                assert(rest[b - 1] == ops[b]);
            }
        }

        // the first key does not recur in the rest
        assert(!seq_has_key(rest, k0)) by {
            if seq_has_key(rest, k0) {
                let c = choose|c: int| 0 <= c < rest.len() && (#[trigger] rest[c]).0 == k0;
                assert(ops[c + 1].0 == k0);
            }
        }

        // each created record stands under its identifier
        assert forall|a: int|
            0 <= a < ops.len() implies apply_creates(m, ops).contains_key(
            (#[trigger] ops[a]).0,
        ) && apply_creates(m, ops)[ops[a].0] == ops[a].1 by {
            if a == 0 {
                assert(m1.contains_key(k0) && m1[k0] == ops[0].1);
            } else {
                assert(rest[a - 1] == ops[a]);
            }
        }

        // untouched keys keep their records
        assert forall|k: Seq<char>|
            !seq_has_key(ops, k) implies (apply_creates(m, ops).contains_key(k)
            <==> m.contains_key(k)) && (m.contains_key(k) ==> apply_creates(m, ops)[k]
            == m[k]) by {
            assert(ops[0].0 != k || !(0 <= 0 < ops.len()));
            assert(k != k0) by {
                if k == k0 {
                    assert((#[trigger] ops[0]).0 == k);
                    assert(seq_has_key(ops, k));
                }
            }
            assert(!seq_has_key(rest, k)) by {
                if seq_has_key(rest, k) {
                    let c = choose|c: int| 0 <= c < rest.len() && (#[trigger] rest[c]).0 == k;
                    assert(ops[c + 1].0 == k);
                    assert(seq_has_key(ops, k));
                }
            }
        }
    }
}

/// Filtering keeps everything when the predicate holds of every element.
pub proof fn lemma_filter_all<A>(s: Seq<A>, p: spec_fn(A) -> bool)
    requires
        forall|i: int| 0 <= i < s.len() ==> p(#[trigger] s[i]),
    ensures
        s.filter(p) == s,
    decreases s.len(),
{
    reveal(Seq::filter);
    if s.len() == 0 {
        assert(s.filter(p) =~= s);
    } else {
        let dl = s.drop_last();
        assert(forall|i: int| 0 <= i < dl.len() ==> p(#[trigger] dl[i])) by {
            assert(forall|i: int| 0 <= i < dl.len() ==> dl[i] == s[i]);
        }
        lemma_filter_all(dl, p);
        assert(p(s.last()));
        assert(s.filter(p) =~= s);
    }
}

/// One step of filtering a growing prefix.
pub proof fn lemma_filter_take_step<A>(s: Seq<A>, p: spec_fn(A) -> bool, i: int)
    requires
        0 <= i < s.len(),
    ensures
        s.take(i + 1).filter(p) == (if p(s[i]) {
            s.take(i).filter(p).push(s[i])
        } else {
            s.take(i).filter(p)
        }),
{
    reveal(Seq::filter);
    assert(s.take(i + 1).drop_last() =~= s.take(i));
    assert(s.take(i + 1).last() == s[i]);
}

} // verus!
