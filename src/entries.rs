//! Name-keyed collections: a vector of entries whose names are unique, seen
//! as a map from name to value.
use vstd::prelude::*;

verus! {

/// The entries of `v` with every name and value replaced by its view.
pub open spec fn entries_view<V: View>(v: Seq<(String, V)>) -> Seq<(Seq<char>, V::V)> {
    v.map_values(|e: (String, V)| (e.0@, e.1@))
}

/// No two entries share a name.
pub open spec fn keys_unique<V>(v: Seq<(Seq<char>, V)>) -> bool {
    forall|i: int, j: int| 0 <= i < v.len() && 0 <= j < v.len() && #[trigger] v[i].0 == #[trigger] v[j].0 ==> i == j
}

/// The map from each name to the value of its entry.
pub open spec fn as_map<V>(v: Seq<(Seq<char>, V)>) -> Map<Seq<char>, V> {
    Map::new(
        |k: Seq<char>| exists|i: int| 0 <= i < v.len() && v[i].0 == k,
        |k: Seq<char>| v[choose|i: int| 0 <= i < v.len() && v[i].0 == k].1,
    )
}

/// Sets the value under `key`, replacing the entry of that name if there is
/// one and adding one otherwise.
pub fn upsert<V: View>(v: &mut Vec<(String, V)>, key: String, value: V)
    requires
        keys_unique(entries_view(old(v)@)),
    ensures
        keys_unique(entries_view(final(v)@)),
        as_map(entries_view(final(v)@)) == as_map(entries_view(old(v)@)).insert(key@, value@),
{
    let ghost ov = entries_view(v@);
    let ghost kv = key@;
    let ghost xv = value@;
    let mut k: usize = 0;
    let mut found = false;
    while k < v.len() && !found
        invariant
            k <= v@.len(),
            entries_view(v@) == ov,
            kv == key@,
            found ==> k < v@.len() && ov[k as int].0 == kv,
            forall|j: int| 0 <= j < k ==> ov[j].0 != kv,
        decreases v@.len() - k + (if found { 0int } else { 1int }),
    {
        assert(ov[k as int].0 == v@[k as int].0@);
        if v[k].0.eq(&key) {
            found = true;
        } else {
            k = k + 1;
        }
    }
    let ghost nv;
    if found {
        v.set(k, (key, value));
        proof {
            nv = entries_view(v@);
            assert(nv =~= ov.update(k as int, (kv, xv)));
        }
    } else {
        v.push((key, value));
        proof {
            nv = entries_view(v@);
            assert(nv =~= ov.push((kv, xv)));
        }
    }
    proof {
        assert(keys_unique(nv)) by {
            assert forall|i: int, j: int|
                0 <= i < nv.len() && 0 <= j < nv.len() && #[trigger] nv[i].0 == #[trigger] nv[j].0 implies i == j by {
                if i != k && j != k {
                    assert(ov[i].0 == ov[j].0);
                }
            }
        }
        let om = as_map(ov);
        let nm = as_map(nv);
        assert forall|q: Seq<char>| #[trigger] nm.dom().contains(q) <==> om.insert(kv, xv).dom().contains(q) by {
            if q != kv {
                if nm.dom().contains(q) {
                    let i = choose|i: int| 0 <= i < nv.len() && nv[i].0 == q;
                    assert(ov[i].0 == q);
                }
                if om.dom().contains(q) {
                    let i = choose|i: int| 0 <= i < ov.len() && ov[i].0 == q;
                    assert(nv[i].0 == q);
                }
            } else {
                assert(nv[k as int].0 == q);
            }
        }
        assert forall|q: Seq<char>| #[trigger] nm.dom().contains(q) implies nm[q] == om.insert(kv, xv)[q] by {
            let i = choose|i: int| 0 <= i < nv.len() && nv[i].0 == q;
            if q == kv {
                assert(nv[k as int].0 == q);
            } else {
                let j = choose|j: int| 0 <= j < ov.len() && ov[j].0 == q;
                assert(nv[j].0 == q);
            }
        }
        assert(nm =~= om.insert(kv, xv));
    }
}

} // verus!
