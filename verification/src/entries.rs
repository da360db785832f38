//! Facts about a finite map keyed by text and a listing of its entries: a pair
//! of sequences that names every key once, each with its value.

use vstd::prelude::*;

verus! {

/// `keys` and `vals` list every entry of `m` exactly once, in some order.
pub open spec fn lists_map<V>(keys: Seq<Seq<char>>, vals: Seq<V>, m: Map<Seq<char>, V>) -> bool {
    &&& keys.len() == vals.len()
    &&& keys.no_duplicates()
    &&& forall|i: int|
        0 <= i < keys.len() ==> m.contains_key(#[trigger] keys[i]) && m[keys[i]] == vals[i]
    &&& forall|k: Seq<char>| #[trigger] m.contains_key(k) ==> keys.contains(k)
}

/// The keys of `m` whose value satisfies `pred`.
pub open spec fn keys_where<V>(m: Map<Seq<char>, V>, pred: spec_fn(V) -> bool) -> Set<Seq<char>> {
    m.dom().filter(|k: Seq<char>| pred(m[k]))
}

/// How many entries of `m` have a value that satisfies `pred`.
pub open spec fn count_where<V>(m: Map<Seq<char>, V>, pred: spec_fn(V) -> bool) -> nat {
    keys_where(m, pred).len()
}

/// A listed map is finite and has as many entries as the listing is long.
pub proof fn lemma_listing_len<V>(keys: Seq<Seq<char>>, vals: Seq<V>, m: Map<Seq<char>, V>)
    requires
        lists_map(keys, vals, m),
    ensures
        m.dom().finite(),
        m.dom() == keys.to_set(),
        m.dom().len() == keys.len(),
{
    assert forall|k: Seq<char>| m.dom().contains(k) <==> keys.to_set().contains(k) by {
        if keys.to_set().contains(k) {
            let i = choose|i: int| 0 <= i < keys.len() && keys[i] == k;
            assert(m.contains_key(keys[i]));
        }
    }
    assert(m.dom() =~= keys.to_set());
    vstd::seq_lib::seq_to_set_is_finite(keys);
    keys.unique_seq_to_set();
}

/// The keys among the first `n` listed whose value satisfies `pred`.
pub open spec fn listed_where<V>(keys: Seq<Seq<char>>, vals: Seq<V>, pred: spec_fn(V) -> bool, n: int) -> Set<
    Seq<char>,
> {
    Set::new(|k: Seq<char>| exists|i: int| 0 <= i < n && keys[i] == k && pred(#[trigger] vals[i]))
}

/// Among no entries no key is found.
pub proof fn lemma_listed_where_none<V>(keys: Seq<Seq<char>>, vals: Seq<V>, pred: spec_fn(V) -> bool)
    ensures
        listed_where(keys, vals, pred, 0) == Set::<Seq<char>>::empty(),
{
    assert(listed_where(keys, vals, pred, 0) =~= Set::<Seq<char>>::empty());
}

/// One more listed entry adds its key to the keys found so far where its
/// value satisfies `pred`, and nothing otherwise.
pub proof fn lemma_listed_where_step<V>(
    keys: Seq<Seq<char>>,
    vals: Seq<V>,
    pred: spec_fn(V) -> bool,
    n: int,
)
    requires
        keys.len() == vals.len(),
        0 <= n < keys.len(),
    ensures
        listed_where(keys, vals, pred, n + 1) == if pred(vals[n]) {
            listed_where(keys, vals, pred, n).insert(keys[n])
        } else {
            listed_where(keys, vals, pred, n)
        },
{
    let before = listed_where(keys, vals, pred, n);
    let after = listed_where(keys, vals, pred, n + 1);
    if pred(vals[n]) {
        assert forall|k: Seq<char>| after.contains(k) <==> before.insert(keys[n]).contains(k) by {
            if after.contains(k) {
                let i = choose|i: int| 0 <= i < n + 1 && keys[i] == k && pred(#[trigger] vals[i]);
                if i < n {
                    assert(before.contains(k));
                }
            }
            if before.contains(k) {
                let i = choose|i: int| 0 <= i < n && keys[i] == k && pred(#[trigger] vals[i]);
                assert(0 <= i < n + 1 && keys[i] == k && pred(vals[i]));
            }
            if k == keys[n] {
                assert(0 <= n < n + 1 && keys[n] == k && pred(vals[n]));
            }
        }
        assert(after =~= before.insert(keys[n]));
    } else {
        assert forall|k: Seq<char>| after.contains(k) <==> before.contains(k) by {
            if after.contains(k) {
                let i = choose|i: int| 0 <= i < n + 1 && keys[i] == k && pred(#[trigger] vals[i]);
                assert(i < n);
            }
            if before.contains(k) {
                let i = choose|i: int| 0 <= i < n && keys[i] == k && pred(#[trigger] vals[i]);
                assert(0 <= i < n + 1 && keys[i] == k && pred(vals[i]));
            }
        }
        assert(after =~= before);
    }
}

proof fn lemma_listed_where<V>(keys: Seq<Seq<char>>, vals: Seq<V>, pred: spec_fn(V) -> bool, n: int)
    requires
        keys.len() == vals.len(),
        keys.no_duplicates(),
        0 <= n <= keys.len(),
    ensures
        listed_where(keys, vals, pred, n).finite(),
        listed_where(keys, vals, pred, n).len() == vals.take(n).filter(pred).len(),
    decreases n,
{
    if n == 0 {
        assert(listed_where(keys, vals, pred, 0) =~= Set::<Seq<char>>::empty());
        assert(vals.take(0) =~= Seq::<V>::empty());
        assert(vals.take(0).filter(pred) =~= Seq::<V>::empty()) by {
            reveal(Seq::filter);
        }
    } else {
        lemma_listed_where(keys, vals, pred, n - 1);
        let before = listed_where(keys, vals, pred, n - 1);
        let after = listed_where(keys, vals, pred, n);
        assert(vals.take(n) =~= vals.take(n - 1).push(vals[n - 1]));
        vals.take(n - 1).lemma_filter_push(vals[n - 1], pred);
        if pred(vals[n - 1]) {
            assert forall|k: Seq<char>| after.contains(k) <==> before.insert(keys[n - 1]).contains(
                k,
            ) by {
                if after.contains(k) {
                    let i = choose|i: int| 0 <= i < n && keys[i] == k && pred(#[trigger] vals[i]);
                    if i < n - 1 {
                        assert(before.contains(k));
                    }
                }
                if before.contains(k) {
                    let i = choose|i: int|
                        0 <= i < n - 1 && keys[i] == k && pred(#[trigger] vals[i]);
                    assert(0 <= i < n && keys[i] == k && pred(vals[i]));
                }
                if k == keys[n - 1] {
                    assert(0 <= n - 1 < n && keys[n - 1] == k && pred(vals[n - 1]));
                }
            }
            assert(after =~= before.insert(keys[n - 1]));
            assert(!before.contains(keys[n - 1])) by {
                if before.contains(keys[n - 1]) {
                    let i = choose|i: int|
                        0 <= i < n - 1 && keys[i] == keys[n - 1] && pred(#[trigger] vals[i]);
                    assert(keys[i] == keys[n - 1]);
                }
            }
        } else {
            assert forall|k: Seq<char>| after.contains(k) <==> before.contains(k) by {
                if after.contains(k) {
                    let i = choose|i: int| 0 <= i < n && keys[i] == k && pred(#[trigger] vals[i]);
                    assert(i < n - 1);
                }
                if before.contains(k) {
                    let i = choose|i: int|
                        0 <= i < n - 1 && keys[i] == k && pred(#[trigger] vals[i]);
                    assert(0 <= i < n && keys[i] == k && pred(vals[i]));
                }
            }
            assert(after =~= before);
        }
    }
}

/// Counting over a listing counts the entries of the map.
pub proof fn lemma_listing_count<V>(
    keys: Seq<Seq<char>>,
    vals: Seq<V>,
    m: Map<Seq<char>, V>,
    pred: spec_fn(V) -> bool,
)
    requires
        lists_map(keys, vals, m),
    ensures
        keys_where(m, pred).finite(),
        count_where(m, pred) == vals.filter(pred).len(),
        keys_where(m, pred) == listed_where(keys, vals, pred, keys.len() as int),
{
    let n = keys.len() as int;
    lemma_listed_where(keys, vals, pred, n);
    assert(vals.take(n) =~= vals);
    let listed = listed_where(keys, vals, pred, n);
    assert forall|k: Seq<char>| listed.contains(k) <==> keys_where(m, pred).contains(k) by {
        if listed.contains(k) {
            let i = choose|i: int| 0 <= i < n && keys[i] == k && pred(#[trigger] vals[i]);
            assert(m.contains_key(keys[i]));
        }
        if keys_where(m, pred).contains(k) {
            assert(m.contains_key(k));
            assert(keys.contains(k));
            let i = choose|i: int| 0 <= i < keys.len() && keys[i] == k;
            assert(m.contains_key(keys[i]) && m[keys[i]] == vals[i]);
            assert(0 <= i < n && keys[i] == k && pred(vals[i]));
        }
    }
    assert(listed =~= keys_where(m, pred));
}

/// Three conditions of which each value meets exactly one split the entries
/// of a finite map into three groups that add up to all of them.
pub proof fn lemma_count_partition<V>(
    m: Map<Seq<char>, V>,
    first: spec_fn(V) -> bool,
    second: spec_fn(V) -> bool,
    third: spec_fn(V) -> bool,
)
    requires
        m.dom().finite(),
        forall|v: V|
            #![trigger first(v)]
            #![trigger second(v)]
            #![trigger third(v)]
            (first(v) || second(v) || third(v)) && !(first(v) && second(v)) && !(first(v)
                && third(v)) && !(second(v) && third(v)),
    ensures
        count_where(m, first) + count_where(m, second) + count_where(m, third) == m.dom().len(),
{
    let firsts = keys_where(m, first);
    let seconds = keys_where(m, second);
    let thirds = keys_where(m, third);
    m.dom().lemma_len_filter(|k: Seq<char>| first(m[k]));
    m.dom().lemma_len_filter(|k: Seq<char>| second(m[k]));
    m.dom().lemma_len_filter(|k: Seq<char>| third(m[k]));
    assert(firsts.finite() && seconds.finite() && thirds.finite()) by {
        vstd::set_lib::lemma_len_subset(firsts, m.dom());
        vstd::set_lib::lemma_len_subset(seconds, m.dom());
        vstd::set_lib::lemma_len_subset(thirds, m.dom());
    }
    assert(firsts.disjoint(seconds)) by {
        assert forall|k: Seq<char>| !(firsts.contains(k) && seconds.contains(k)) by {
            assert(!(first(m[k]) && second(m[k])));
        }
    }
    vstd::set_lib::lemma_set_disjoint_lens(firsts, seconds);
    assert((firsts + seconds).disjoint(thirds)) by {
        assert forall|k: Seq<char>| !((firsts + seconds).contains(k) && thirds.contains(k)) by {
            assert(!(first(m[k]) && third(m[k])));
            assert(!(second(m[k]) && third(m[k])));
        }
    }
    vstd::set_lib::lemma_set_disjoint_lens(firsts + seconds, thirds);
    assert(firsts + seconds + thirds =~= m.dom()) by {
        assert forall|k: Seq<char>| m.dom().contains(k)
            implies (firsts + seconds + thirds).contains(k) by {
            let v = m[k];
            assert(first(v) || second(v) || third(v));
        }
    }
}

} // verus!
