//! Association sequences: ordered key/value pairs with upsert semantics.
//!
//! Both the GUID index and the document merge speak of "insert if absent,
//! overwrite in place if present, never reorder what is already there". This
//! module states that behaviour once, over `Seq<(K, V)>`, and proves the
//! facts the rest of the crate needs about it.
use vstd::prelude::*;

verus! {

/// True when no key occurs twice.
pub open spec fn unique_keys<K, V>(s: Seq<(K, V)>) -> bool {
    forall|i: int, j: int| 0 <= i < j < s.len() ==> s[i].0 != s[j].0
}

/// True when some pair carries key `k`.
pub open spec fn has_key<K, V>(s: Seq<(K, V)>, k: K) -> bool {
    exists|i: int| 0 <= i < s.len() && s[i].0 == k
}

/// The value of the first pair that carries key `k`, if any.
pub open spec fn lookup<K, V>(s: Seq<(K, V)>, k: K) -> Option<V>
    decreases s.len(),
{
    if s.len() == 0 {
        None
    } else if s.first().0 == k {
        Some(s.first().1)
    } else {
        lookup(s.drop_first(), k)
    }
}

/// Overwrites the value of the first pair that carries key `k`, keeping its
/// position; appends `(k, v)` if no pair does.
pub open spec fn upsert<K, V>(s: Seq<(K, V)>, k: K, v: V) -> Seq<(K, V)>
    decreases s.len(),
{
    if s.len() == 0 {
        seq![(k, v)]
    } else if s.first().0 == k {
        seq![(k, v)] + s.drop_first()
    } else {
        seq![s.first()] + upsert(s.drop_first(), k, v)
    }
}

/// Upserts every pair of `ups` into `s`, first to last.
pub open spec fn merged<K, V>(s: Seq<(K, V)>, ups: Seq<(K, V)>) -> Seq<(K, V)>
    decreases ups.len(),
{
    if ups.len() == 0 {
        s
    } else {
        merged(upsert(s, ups.first().0, ups.first().1), ups.drop_first())
    }
}

/// A match at position `i` with no earlier match is what `lookup` returns.
pub proof fn lemma_lookup_at<K, V>(s: Seq<(K, V)>, k: K, i: int)
    requires
        0 <= i < s.len(),
        s[i].0 == k,
        forall|j: int| 0 <= j < i ==> s[j].0 != k,
    ensures
        lookup(s, k) == Some(s[i].1),
    decreases i,
{
    if i == 0 {
        assert(s.first() == s[0]);
    } else {
        assert(s[0].0 != k);
        assert(forall|j: int| 0 <= j < i - 1 ==> s.drop_first()[j] == s[j + 1]);
        assert(s.drop_first()[i - 1] == s[i]);
        lemma_lookup_at(s.drop_first(), k, i - 1);
    }
}

/// What `upsert` does, pair by pair: if the key is present, the first pair
/// carrying it is overwritten in place; otherwise `(k, v)` is appended. In
/// both cases every other pair is untouched.
pub proof fn lemma_upsert_effect<K, V>(s: Seq<(K, V)>, k: K, v: V)
    ensures
        has_key(s, k) ==> {
            let i = first_key_index(s, k);
            upsert(s, k, v) =~= s.update(i, (k, v))
        },
        !has_key(s, k) ==> upsert(s, k, v) =~= s.push((k, v)),
    decreases s.len(),
{
    if s.len() == 0 {
        assert(upsert(s, k, v) =~= s.push((k, v)));
    } else if s.first().0 == k {
        assert(s[0].0 == k);
        assert(first_key_index(s, k) == 0);
        assert(upsert(s, k, v) =~= s.update(0, (k, v)));
    } else {
        lemma_upsert_effect(s.drop_first(), k, v);
        if has_key(s, k) {
            let i = first_key_index(s, k);
            lemma_first_key_index(s, k);
            assert(i >= 1) by {
                assert(s[0].0 != k);
            }
            assert(has_key(s.drop_first(), k)) by {
                assert(s.drop_first()[i - 1].0 == k);
            }
            assert(first_key_index(s.drop_first(), k) == i - 1) by {
                lemma_first_key_index(s.drop_first(), k);
                let j = first_key_index(s.drop_first(), k);
                assert(s[j + 1].0 == k);
                assert(s.drop_first()[i - 1].0 == k);
            }
            assert(upsert(s, k, v) =~= s.update(i, (k, v)));
        } else {
            assert(!has_key(s.drop_first(), k)) by {
                if has_key(s.drop_first(), k) {
                    let i = choose|i: int|
                        0 <= i < s.drop_first().len() && s.drop_first()[i].0 == k;
                    assert(s[i + 1].0 == k);
                }
            }
            assert(upsert(s, k, v) =~= s.push((k, v)));
        }
    }
}

/// The position of the first pair that carries key `k`.
pub open spec fn first_key_index<K, V>(s: Seq<(K, V)>, k: K) -> int
    decreases s.len(),
{
    if s.len() == 0 {
        0
    } else if s.first().0 == k {
        0
    } else {
        1 + first_key_index(s.drop_first(), k)
    }
}

/// When the key is present, `first_key_index` points at it and nothing
/// before it carries the key.
pub proof fn lemma_first_key_index<K, V>(s: Seq<(K, V)>, k: K)
    requires
        has_key(s, k),
    ensures
        0 <= first_key_index(s, k) < s.len(),
        s[first_key_index(s, k)].0 == k,
        forall|j: int| 0 <= j < first_key_index(s, k) ==> s[j].0 != k,
    decreases s.len(),
{
    if s.len() > 0 && s.first().0 != k {
        assert(has_key(s.drop_first(), k)) by {
            let i = choose|i: int| 0 <= i < s.len() && s[i].0 == k;
            assert(s.drop_first()[i - 1].0 == k);
        }
        lemma_first_key_index(s.drop_first(), k);
        let i = first_key_index(s.drop_first(), k);
        assert(s[1 + i].0 == k);
        assert(forall|j: int| 1 <= j < 1 + i ==> s[j].0 == s.drop_first()[j - 1].0);
    }
}

/// `lookup` after `upsert`: the upserted key now maps to `v`, every other
/// key maps to what it mapped to before.
pub proof fn lemma_upsert_lookup<K, V>(s: Seq<(K, V)>, k: K, v: V, q: K)
    ensures
        k == q ==> lookup(upsert(s, k, v), q) == Some(v),
        k != q ==> lookup(upsert(s, k, v), q) == lookup(s, q),
    decreases s.len(),
{
    if s.len() == 0 {
        let t = upsert(s, k, v);
        assert(t == seq![(k, v)]);
        assert(t.first() == (k, v));
        if k != q {
            assert(t.drop_first() =~= Seq::<(K, V)>::empty());
            assert(lookup(t.drop_first(), q) == None::<V>);
            assert(lookup(t, q) == lookup(t.drop_first(), q));
        }
    } else if s.first().0 == k {
        let t = upsert(s, k, v);
        assert(t == seq![(k, v)] + s.drop_first());
        assert(t.len() > 0);
        assert(t.first() == (k, v));
        if k == q {
            assert(lookup(t, q) == Some(v));
        } else {
            assert(t.drop_first() =~= s.drop_first());
            assert(lookup(t, q) == lookup(t.drop_first(), q));
            assert(lookup(s, q) == lookup(s.drop_first(), q));
        }
    } else {
        let t = upsert(s, k, v);
        assert(t == seq![s.first()] + upsert(s.drop_first(), k, v));
        assert(t.len() > 0);
        assert(t.first() == s.first());
        assert(t.drop_first() =~= upsert(s.drop_first(), k, v));
        lemma_upsert_lookup(s.drop_first(), k, v, q);
        if s.first().0 == q {
            assert(lookup(t, q) == Some(t.first().1));
            assert(lookup(s, q) == Some(s.first().1));
        } else {
            assert(lookup(t, q) == lookup(t.drop_first(), q));
            assert(lookup(s, q) == lookup(s.drop_first(), q));
        }
    }
}

/// `upsert` keeps keys unique.
pub proof fn lemma_upsert_unique<K, V>(s: Seq<(K, V)>, k: K, v: V)
    requires
        unique_keys(s),
    ensures
        unique_keys(upsert(s, k, v)),
{
    lemma_upsert_effect(s, k, v);
    if has_key(s, k) {
        lemma_first_key_index(s, k);
    }
}

/// `upsert` never moves an existing pair: position `i` keeps its key, and
/// keeps its whole pair when its key is not the upserted one.
pub proof fn lemma_upsert_frame<K, V>(s: Seq<(K, V)>, k: K, v: V, i: int)
    requires
        0 <= i < s.len(),
    ensures
        upsert(s, k, v).len() >= s.len(),
        upsert(s, k, v)[i].0 == s[i].0,
        s[i].0 != k ==> upsert(s, k, v)[i] == s[i],
{
    lemma_upsert_effect(s, k, v);
    if has_key(s, k) {
        lemma_first_key_index(s, k);
    }
}

/// `merged` applied to one more update equals one more `upsert`.
pub proof fn lemma_merged_snoc<K, V>(s: Seq<(K, V)>, ups: Seq<(K, V)>, p: (K, V))
    ensures
        merged(s, ups.push(p)) == upsert(merged(s, ups), p.0, p.1),
    decreases ups.len(),
{
    let w = ups.push(p);
    assert(w.len() == ups.len() + 1);
    if ups.len() == 0 {
        assert(w.first() == p);
        assert(w.drop_first() =~= Seq::<(K, V)>::empty());
        assert(merged(s, w) == merged(upsert(s, p.0, p.1), w.drop_first()));
        assert(merged(upsert(s, p.0, p.1), w.drop_first()) == upsert(s, p.0, p.1));
        assert(merged(s, ups) == s);
    } else {
        assert(w.first() == ups.first());
        assert(w.drop_first() =~= ups.drop_first().push(p));
        let s1 = upsert(s, ups.first().0, ups.first().1);
        assert(merged(s, w) == merged(s1, w.drop_first()));
        assert(merged(s, ups) == merged(s1, ups.drop_first()));
        lemma_merged_snoc(s1, ups.drop_first(), p);
    }
}

/// A key that none of the updates carries maps to the same value after the
/// merge as before it.
pub proof fn lemma_merged_lookup_unrelated<K, V>(s: Seq<(K, V)>, ups: Seq<(K, V)>, q: K)
    requires
        !has_key(ups, q),
    ensures
        lookup(merged(s, ups), q) == lookup(s, q),
    decreases ups.len(),
{
    if ups.len() > 0 {
        assert(ups[0].0 != q);
        assert(!has_key(ups.drop_first(), q)) by {
            if has_key(ups.drop_first(), q) {
                let i = choose|i: int|
                    0 <= i < ups.drop_first().len() && ups.drop_first()[i].0 == q;
                assert(ups[i + 1].0 == q);
            }
        }
        lemma_upsert_lookup(s, ups.first().0, ups.first().1, q);
        lemma_merged_lookup_unrelated(upsert(s, ups.first().0, ups.first().1), ups.drop_first(), q);
    }
}

/// A key that an update carries maps, after the merge, to the value of that
/// update (the updates' keys assumed unique, so there is only one).
pub proof fn lemma_merged_lookup_updated<K, V>(s: Seq<(K, V)>, ups: Seq<(K, V)>, q: K)
    requires
        unique_keys(ups),
        has_key(ups, q),
    ensures
        lookup(merged(s, ups), q) == lookup(ups, q),
    decreases ups.len(),
{
    let rest = ups.drop_first();
    let s1 = upsert(s, ups.first().0, ups.first().1);
    if ups.first().0 == q {
        assert(!has_key(rest, q)) by {
            if has_key(rest, q) {
                let i = choose|i: int| 0 <= i < rest.len() && rest[i].0 == q;
                assert(ups[i + 1].0 == q);
                assert(ups[0].0 == q);
            }
        }
        lemma_upsert_lookup(s, ups.first().0, ups.first().1, q);
        lemma_merged_lookup_unrelated(s1, rest, q);
    } else {
        assert(has_key(rest, q)) by {
            let i = choose|i: int| 0 <= i < ups.len() && ups[i].0 == q;
            assert(rest[i - 1].0 == q);
        }
        assert(unique_keys(rest)) by {
            assert(forall|i: int, j: int|
                0 <= i < j < rest.len() ==> rest[i].0 == ups[i + 1].0 && rest[j].0 == ups[j + 1].0);
        }
        lemma_merged_lookup_updated(s1, rest, q);
    }
}

/// The merge never moves a pre-existing pair: position `i` keeps its key,
/// and keeps its whole pair when no update carries its key.
pub proof fn lemma_merged_frame<K, V>(s: Seq<(K, V)>, ups: Seq<(K, V)>, i: int)
    requires
        0 <= i < s.len(),
    ensures
        merged(s, ups).len() >= s.len(),
        merged(s, ups)[i].0 == s[i].0,
        !has_key(ups, s[i].0) ==> merged(s, ups)[i] == s[i],
    decreases ups.len(),
{
    if ups.len() > 0 {
        let s1 = upsert(s, ups.first().0, ups.first().1);
        lemma_upsert_frame(s, ups.first().0, ups.first().1, i);
        lemma_merged_frame(s1, ups.drop_first(), i);
        if !has_key(ups, s[i].0) {
            assert(ups[0].0 != s[i].0);
            assert(!has_key(ups.drop_first(), s[i].0)) by {
                if has_key(ups.drop_first(), s[i].0) {
                    let j = choose|j: int|
                        0 <= j < ups.drop_first().len() && ups.drop_first()[j].0 == s[i].0;
                    assert(ups[j + 1].0 == s[i].0);
                }
            }
        }
    }
}

} // verus!
