//! Maps built from lists of entries, and the models of maps.
use vstd::prelude::*;
use crate::model::{models, Model};

verus! {

/// The map that inserting the entries of `l` in order builds: where a key
/// occurs more than once, its last entry stands.
pub open spec fn entries_to_map<A, B>(l: Seq<(A, B)>) -> Map<A, B>
    decreases l.len(),
{
    if l.len() == 0 {
        Map::empty()
    } else {
        entries_to_map(l.drop_last()).insert(l.last().0, l.last().1)
    }
}

/// Whether no key occurs twice in `l`.
pub open spec fn distinct_keys<A, B>(l: Seq<(A, B)>) -> bool {
    forall|i: int, j: int| 0 <= i < j < l.len() ==> l[i].0 != l[j].0
}

/// Whether distinct values of `K` have distinct models.
pub open spec fn model_injective<K: Model>() -> bool {
    forall|k1: K, k2: K| #![trigger k1.model(), k2.model()] k1.model() == k2.model() ==> k1 == k2
}

/// The models of the entries of `m`, keyed by the models of its keys.
pub open spec fn map_model<K: Model, V: Model>(m: Map<K, V>) -> Map<K::M, V::M> {
    Map::new(
        |km: K::M| exists|k: K| m.contains_key(k) && k.model() == km,
        |km: K::M| m[choose|k: K| m.contains_key(k) && k.model() == km].model(),
    )
}

pub proof fn lemma_map_model_empty<K: Model, V: Model>()
    ensures
        map_model(Map::<K, V>::empty()) == Map::<K::M, V::M>::empty(),
{
    assert(map_model(Map::<K, V>::empty()) =~= Map::<K::M, V::M>::empty());
}

/// Inserting an entry and then taking models is taking models and then
/// inserting the entry's models.
pub proof fn lemma_map_model_insert<K: Model, V: Model>(m: Map<K, V>, k: K, v: V)
    requires
        model_injective::<K>(),
    ensures
        map_model(m.insert(k, v)) == map_model(m).insert(k.model(), v.model()),
{
    let lhs = map_model(m.insert(k, v));
    let rhs = map_model(m).insert(k.model(), v.model());
    assert forall|km: K::M| lhs.contains_key(km) == rhs.contains_key(km) by {
        if rhs.contains_key(km) && km != k.model() {
            let k2 = choose|k2: K| m.contains_key(k2) && k2.model() == km;
            assert(m.insert(k, v).contains_key(k2));
        }
        if lhs.contains_key(km) {
            let k2 = choose|k2: K| m.insert(k, v).contains_key(k2) && k2.model() == km;
            if k2 != k {
                assert(m.contains_key(k2));
            }
        }
    }
    assert forall|km: K::M| lhs.contains_key(km) implies lhs[km] == rhs[km] by {
        let k2 = choose|k2: K| m.insert(k, v).contains_key(k2) && k2.model() == km;
        if km == k.model() {
            assert(k2 == k);
        } else {
            assert(k2 != k);
            assert(m.contains_key(k2));
            let k3 = choose|k3: K| m.contains_key(k3) && k3.model() == km;
            assert(k3 == k2);
        }
    }
    assert(lhs =~= rhs);
}

/// Building a map from entries and then taking models is building the map
/// from the entries' models.
pub proof fn lemma_map_model_entries<K: Model, V: Model>(l: Seq<(K, V)>)
    requires
        model_injective::<K>(),
    ensures
        map_model(entries_to_map(l)) == entries_to_map(models(l)),
    decreases l.len(),
{
    if l.len() == 0 {
        lemma_map_model_empty::<K, V>();
        assert(models(l) =~= Seq::<(K::M, V::M)>::empty());
    } else {
        lemma_map_model_entries(l.drop_last());
        lemma_map_model_insert(entries_to_map(l.drop_last()), l.last().0, l.last().1);
        assert(models(l).drop_last() =~= models(l.drop_last()));
    }
}

/// A list with distinct keys whose entries are exactly those of `m` builds `m`.
pub proof fn lemma_entries_list_map<A, B>(l: Seq<(A, B)>, m: Map<A, B>)
    requires
        distinct_keys(l),
        forall|i: int| 0 <= i < l.len() ==> #[trigger] m.contains_key(l[i].0) && m[l[i].0] == l[i].1,
        forall|a: A| #[trigger] m.contains_key(a) ==> exists|i: int| 0 <= i < l.len() && l[i].0 == a,
    ensures
        entries_to_map(l) == m,
    decreases l.len(),
{
    if l.len() == 0 {
        assert forall|a: A| !m.contains_key(a) by {
            if m.contains_key(a) {
                let i = choose|i: int| 0 <= i < l.len() && l[i].0 == a;
            }
        }
        assert(m =~= Map::empty());
    } else {
        let last = l.last();
        let rest = l.drop_last();
        let m2 = m.remove(last.0);
        assert forall|i: int| 0 <= i < rest.len() implies #[trigger] m2.contains_key(rest[i].0)
            && m2[rest[i].0] == rest[i].1 by {
            assert(l[i] == rest[i]);
            assert(m.contains_key(l[i].0));
        }
        assert forall|a: A| #[trigger] m2.contains_key(a) implies exists|i: int|
            0 <= i < rest.len() && rest[i].0 == a by {
            let i = choose|i: int| 0 <= i < l.len() && l[i].0 == a;
            assert(i != l.len() - 1);
            assert(rest[i].0 == a);
        }
        lemma_entries_list_map(rest, m2);
        assert(m.contains_key(l[l.len() - 1].0));
        assert(m2.insert(last.0, last.1) =~= m);
    }
}

/// Entries with distinct keys have entries with distinct key models.
pub proof fn lemma_distinct_key_models<K: Model, V: Model>(l: Seq<(K, V)>)
    requires
        model_injective::<K>(),
        distinct_keys(l),
    ensures
        distinct_keys(models(l)),
{
    assert forall|i: int, j: int| 0 <= i < j < models(l).len() implies models(l)[i].0 != models(l)[j].0 by {
        assert(l[i].0 != l[j].0);
        assert(models(l)[i].0 == l[i].0.model());
        assert(models(l)[j].0 == l[j].0.model());
    }
}

} // verus!
