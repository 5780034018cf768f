//! Trusted boundary around the insertion-ordered map (indexmap's `IndexMap`
//! with the fxhash hasher) that backs the variable store.  The contracts here
//! state what the crate's documentation and source promise: iteration follows
//! insertion order, an insert of an existing key keeps its place and replaces
//! its value, a new key goes last.
use vstd::prelude::*;

use fxhash::FxBuildHasher;
use indexmap::IndexMap;

verus! {

#[verifier::external_type_specification]
#[verifier::external_body]
#[verifier::reject_recursive_types(K)]
#[verifier::reject_recursive_types(V)]
#[verifier::reject_recursive_types(S)]
pub struct ExIndexMap<K, V, S>(IndexMap<K, V, S>);

#[verifier::external_type_specification]
#[verifier::external_body]
pub struct ExFxHasher(fxhash::FxHasher);

#[verifier::external_type_specification]
#[verifier::external_body]
#[verifier::reject_recursive_types(H)]
pub struct ExBuildHasherDefault<H>(std::hash::BuildHasherDefault<H>);

/// The key-value pairs the map holds, in its iteration order.
pub uninterp spec fn var_entries(m: IndexMap<Vec<u8>, Vec<u8>, FxBuildHasher>) -> Seq<
    (Seq<u8>, Seq<u8>),
>;

/// No key occurs twice.
pub open spec fn unique_keys(es: Seq<(Seq<u8>, Seq<u8>)>) -> bool {
    forall|i: int, j: int| 0 <= i < j < es.len() ==> (#[trigger] es[i]).0 != (#[trigger] es[j]).0
}

/// The position of `k` among the entries, or -1 when it is absent.
pub open spec fn find_key(es: Seq<(Seq<u8>, Seq<u8>)>, k: Seq<u8>) -> int
    decreases es.len(),
{
    if es.len() == 0 {
        -1
    } else if es[0].0 == k {
        0
    } else {
        let r = find_key(es.drop_first(), k);
        if r == -1 {
            -1
        } else {
            r + 1
        }
    }
}

/// The entries after writing `k = v`: an existing key keeps its position and
/// takes the new value, a new key is appended.
pub open spec fn upsert(es: Seq<(Seq<u8>, Seq<u8>)>, k: Seq<u8>, v: Seq<u8>) -> Seq<
    (Seq<u8>, Seq<u8>),
> {
    let i = find_key(es, k);
    if i == -1 {
        es.push((k, v))
    } else {
        es.update(i, (k, v))
    }
}

/// The value stored under `k`, if any.
pub open spec fn lookup(es: Seq<(Seq<u8>, Seq<u8>)>, k: Seq<u8>) -> Option<Seq<u8>> {
    let i = find_key(es, k);
    if i == -1 {
        None
    } else {
        Some(es[i].1)
    }
}

/// Relies on `IndexMap::default`: a new map holds nothing.
#[verifier::external_body]
pub(crate) fn var_map_new() -> (r: IndexMap<Vec<u8>, Vec<u8>, FxBuildHasher>)
    ensures
        var_entries(r) == Seq::<(Seq<u8>, Seq<u8>)>::empty(),
{
    IndexMap::default()
}

/// Relies on `IndexMap::insert`: an equivalent key remains and retains its
/// place in the order with its value updated; a new key is inserted last.
#[verifier::external_body]
pub(crate) fn var_map_insert(
    m: &mut IndexMap<Vec<u8>, Vec<u8>, FxBuildHasher>,
    k: Vec<u8>,
    v: Vec<u8>,
)
    ensures
        var_entries(*final(m)) == upsert(var_entries(*old(m)), k@, v@),
{
    m.insert(k, v);
}

/// Relies on `IndexMap::get`: the stored value for an equal key, else none.
#[verifier::external_body]
pub(crate) fn var_map_get<'a>(
    m: &'a IndexMap<Vec<u8>, Vec<u8>, FxBuildHasher>,
    k: &[u8],
) -> (r: Option<&'a Vec<u8>>)
    ensures
        match r {
            Some(v) => exists|i: int|
                0 <= i < var_entries(*m).len() && (#[trigger] var_entries(*m)[i]) == (k@, v@),
            None => forall|i: int|
                0 <= i < var_entries(*m).len() ==> (#[trigger] var_entries(*m)[i]).0 != k@,
        },
{
    m.get(k)
}

/// Relies on `IndexMap::len`: the number of stored pairs.
#[verifier::external_body]
pub(crate) fn var_map_len(m: &IndexMap<Vec<u8>, Vec<u8>, FxBuildHasher>) -> (r: usize)
    ensures
        r == var_entries(*m).len(),
{
    m.len()
}

/// Relies on `IndexMap::iter`: the pairs come out in the map's order.
#[verifier::external_body]
pub(crate) fn var_map_entries(m: &IndexMap<Vec<u8>, Vec<u8>, FxBuildHasher>) -> (r: Vec<
    (Vec<u8>, Vec<u8>),
>)
    ensures
        r@.len() == var_entries(*m).len(),
        forall|i: int|
            0 <= i < r@.len() ==> ((#[trigger] r@[i]).0@, r@[i].1@) == var_entries(*m)[i],
{
    m.iter().map(|(k, v)| (k.clone(), v.clone())).collect()
}

pub proof fn lemma_find_key_props(es: Seq<(Seq<u8>, Seq<u8>)>, k: Seq<u8>)
    ensures
        find_key(es, k) == -1 ==> forall|i: int| 0 <= i < es.len() ==> (#[trigger] es[i]).0 != k,
        find_key(es, k) != -1 ==> 0 <= find_key(es, k) < es.len() && es[find_key(es, k)].0 == k,
    decreases es.len(),
{
    if es.len() > 0 && es[0].0 != k {
        let rest = es.drop_first();
        lemma_find_key_props(rest, k);
        if find_key(rest, k) == -1 {
            assert forall|i: int| 0 <= i < es.len() implies (#[trigger] es[i]).0 != k by {
                if i >= 1 {
                    assert(rest[i - 1] == es[i]);
                }
            }
        } else {
            assert(es[find_key(es, k)] == rest[find_key(rest, k)]);
        }
    }
}

/// With unique keys, the found position is the only one holding the key.
pub proof fn lemma_find_key_unique(es: Seq<(Seq<u8>, Seq<u8>)>, k: Seq<u8>)
    requires
        unique_keys(es),
    ensures
        forall|i: int| 0 <= i < es.len() && (#[trigger] es[i]).0 == k ==> i == find_key(es, k),
{
    lemma_find_key_props(es, k);
    assert forall|i: int| 0 <= i < es.len() && (#[trigger] es[i]).0 == k implies i == find_key(
        es,
        k,
    ) by {
        let f = find_key(es, k);
        if f == -1 {
        } else if i < f {
            assert(es[i].0 != es[f].0);
        } else if f < i {
            assert(es[f].0 != es[i].0);
        }
    }
}

/// Writing one pair cannot introduce a duplicate key.
pub proof fn lemma_upsert_unique(es: Seq<(Seq<u8>, Seq<u8>)>, k: Seq<u8>, v: Seq<u8>)
    requires
        unique_keys(es),
    ensures
        unique_keys(upsert(es, k, v)),
{
    lemma_find_key_props(es, k);
}

/// The store after replaying a list of key-value writes, oldest first.
pub open spec fn upsert_all(es: Seq<(Seq<u8>, Seq<u8>)>, pairs: Seq<(Seq<u8>, Seq<u8>)>) -> Seq<
    (Seq<u8>, Seq<u8>),
>
    decreases pairs.len(),
{
    if pairs.len() == 0 {
        es
    } else {
        upsert_all(upsert(es, pairs[0].0, pairs[0].1), pairs.drop_first())
    }
}

/// The last value written for `k` in a list of writes, if any.
pub open spec fn last_value(pairs: Seq<(Seq<u8>, Seq<u8>)>, k: Seq<u8>) -> Option<Seq<u8>>
    decreases pairs.len(),
{
    if pairs.len() == 0 {
        None
    } else {
        let r = last_value(pairs.drop_first(), k);
        if r is Some {
            r
        } else if pairs[0].0 == k {
            Some(pairs[0].1)
        } else {
            None
        }
    }
}

/// The keys of the entries, in order.
pub open spec fn keys_of(es: Seq<(Seq<u8>, Seq<u8>)>) -> Seq<Seq<u8>> {
    es.map(|i: int, e: (Seq<u8>, Seq<u8>)| e.0)
}

/// The keys of the writes not among `ks` yet, in first-seen order.
pub open spec fn new_keys(ks: Seq<Seq<u8>>, pairs: Seq<(Seq<u8>, Seq<u8>)>) -> Seq<Seq<u8>>
    decreases pairs.len(),
{
    if pairs.len() == 0 {
        seq![]
    } else if ks.contains(pairs[0].0) {
        new_keys(ks, pairs.drop_first())
    } else {
        seq![pairs[0].0] + new_keys(ks.push(pairs[0].0), pairs.drop_first())
    }
}

/// With unique keys, a lookup finds exactly the value stored beside the key.
pub proof fn lemma_lookup_char(es: Seq<(Seq<u8>, Seq<u8>)>, k: Seq<u8>)
    requires
        unique_keys(es),
    ensures
        (lookup(es, k) is Some) <==> exists|i: int| 0 <= i < es.len() && (#[trigger] es[i]).0 == k,
        forall|i: int|
            0 <= i < es.len() && (#[trigger] es[i]).0 == k ==> lookup(es, k) == Some(es[i].1),
{
    lemma_find_key_props(es, k);
    lemma_find_key_unique(es, k);
}

/// How one write changes the keys and the lookups: an existing key keeps the
/// key list unchanged, a new key is appended; the written key maps to the
/// new value and every other key is untouched.
pub proof fn lemma_upsert_props(es: Seq<(Seq<u8>, Seq<u8>)>, k: Seq<u8>, v: Seq<u8>)
    requires
        unique_keys(es),
    ensures
        unique_keys(upsert(es, k, v)),
        keys_of(upsert(es, k, v)) == if keys_of(es).contains(k) {
            keys_of(es)
        } else {
            keys_of(es).push(k)
        },
        forall|k2: Seq<u8>|
            #[trigger] lookup(upsert(es, k, v), k2) == if k2 == k {
                Some(v)
            } else {
                lookup(es, k2)
            },
{
    lemma_find_key_props(es, k);
    lemma_find_key_unique(es, k);
    lemma_upsert_unique(es, k, v);
    let es2 = upsert(es, k, v);
    let f = find_key(es, k);
    assert(keys_of(es).contains(k) <==> f != -1) by {
        if keys_of(es).contains(k) {
            let w = choose|i: int| 0 <= i < keys_of(es).len() && keys_of(es)[i] == k;
            assert(es[w].0 == k);
        }
        if f != -1 {
            assert(keys_of(es)[f] == k);
        }
    }
    if f == -1 {
        assert(keys_of(es2) =~= keys_of(es).push(k));
    } else {
        assert(keys_of(es2) =~= keys_of(es));
    }
    assert forall|k2: Seq<u8>| #[trigger] lookup(es2, k2) == (if k2 == k {
        Some(v)
    } else {
        lookup(es, k2)
    }) by {
        lemma_lookup_char(es2, k2);
        lemma_lookup_char(es, k2);
        if k2 == k {
            let at = if f == -1 {
                es.len() as int
            } else {
                f
            };
            assert(es2[at] == (k, v));
            assert(lookup(es2, k2) == Some(v));
        } else {
            match lookup(es, k2) {
                Some(_w) => {
                    let i = choose|i: int| 0 <= i < es.len() && (#[trigger] es[i]).0 == k2;
                    assert(es2[i] == es[i]);
                    assert(lookup(es2, k2) == Some(es[i].1));
                },
                None => {
                    if lookup(es2, k2) is Some {
                        let i = choose|i: int|
                            0 <= i < es2.len() && (#[trigger] es2[i]).0 == k2;
                        assert(0 <= i < es.len() ==> es[i].0 == k2 || es2[i] == (k, v));
                        assert(i == es.len() ==> es2[i] == (k, v));
                        assert(false);
                    }
                },
            }
        }
    }
}

/// Replaying key-value lines into a store with unique keys keeps the keys in
/// first-seen order after the existing ones, and leaves every key holding
/// the last value written for it (or its old value when never written).
pub proof fn lemma_store_replay(es: Seq<(Seq<u8>, Seq<u8>)>, pairs: Seq<(Seq<u8>, Seq<u8>)>)
    requires
        unique_keys(es),
    ensures
        unique_keys(upsert_all(es, pairs)),
        keys_of(upsert_all(es, pairs)) == keys_of(es) + new_keys(keys_of(es), pairs),
        forall|k: Seq<u8>|
            #[trigger] lookup(upsert_all(es, pairs), k) == match last_value(pairs, k) {
                Some(v) => Some(v),
                None => lookup(es, k),
            },
    decreases pairs.len(),
{
    if pairs.len() == 0 {
        assert(keys_of(upsert_all(es, pairs)) =~= keys_of(es) + new_keys(keys_of(es), pairs));
    } else {
        let k0 = pairs[0].0;
        let v0 = pairs[0].1;
        let rest = pairs.drop_first();
        let es2 = upsert(es, k0, v0);
        lemma_upsert_props(es, k0, v0);
        lemma_store_replay(es2, rest);
        if keys_of(es).contains(k0) {
            assert(keys_of(es) + new_keys(keys_of(es), pairs) =~= keys_of(es2) + new_keys(
                keys_of(es2),
                rest,
            ));
        } else {
            assert(keys_of(es2) =~= keys_of(es).push(k0));
            assert(keys_of(es) + new_keys(keys_of(es), pairs) =~= keys_of(es2) + new_keys(
                keys_of(es2),
                rest,
            ));
        }
        assert forall|k: Seq<u8>|
            #[trigger] lookup(upsert_all(es, pairs), k) == (match last_value(pairs, k) {
                Some(v) => Some(v),
                None => lookup(es, k),
            }) by {
            assert(lookup(upsert_all(es2, rest), k) == match last_value(rest, k) {
                Some(v) => Some(v),
                None => lookup(es2, k),
            });
            assert(lookup(es2, k) == if k == k0 {
                Some(v0)
            } else {
                lookup(es, k)
            });
        }
    }
}

} // verus!
