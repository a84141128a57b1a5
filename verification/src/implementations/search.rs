use vstd::prelude::*;
use std::collections::BTreeMap;

use crate::implementations::collections::map_entries;
use crate::implementations::layout::lemma_encode_each_concat;
use crate::implementations::ordered::{lemma_sorted_keys, rank_increasing, sorted_keys, OrderedKey};
use crate::implementations::vecs::{encode_each, spec_encode_len};
use crate::implementations::walk::find_entry;
use crate::{
    lemma_skip_encoded, models, DeserializeRevisioned, Revisioned, RevisionedRoundTrip,
    SerializeRevisioned, SkipRevisioned,
};

verus! {

/// Each value's encoding is no longer than the encodings of a run of values it is in.
proof fn lemma_part_len<T: SerializeRevisioned>(ms: Seq<T::Model>)
    requires
        ms.len() > 0,
    ensures
        encode_each::<T>(ms) == T::spec_encode(ms[0]) + encode_each::<T>(ms.drop_first()),
{
    lemma_encode_each_concat::<T>(seq![ms[0]], ms.drop_first(), ms[0]);
    assert(seq![ms[0]] + ms.drop_first() == ms);
}

/// Looking for `key` in the encodings of entries whose keys strictly increase finds it
/// exactly when some entry has it, and then the bytes next are that entry's value.
proof fn lemma_find_in_entries<
    K: OrderedKey + RevisionedRoundTrip,
    V: RevisionedRoundTrip + SkipRevisioned,
>(vs: Seq<(K, V)>, key: K, rest: Seq<u8>)
    requires
        rank_increasing(vs.map_values(|e: (K, V)| e.0)),
        encode_each::<(K, V)>(models(vs)).len() <= usize::MAX,
    ensures
        ({
            let input = encode_each::<(K, V)>(models(vs)) + rest;
            find_entry::<K, V>(input, vs.len(), key) matches Ok((found, c)) && c <= input.len() && found == (exists|i: int|
                0 <= i < vs.len() && #[trigger] vs[i].0 == key) && (found ==> exists|i: int|
                0 <= i < vs.len() && #[trigger] vs[i].0 == key && (V::spec_decode(input.skip(c as int))
                    matches Ok((vm, _)) && vm == vs[i].1.model()))
        }),
    decreases vs.len(),
{
    K::lemma_ordered();
    let input = encode_each::<(K, V)>(models(vs)) + rest;
    if vs.len() == 0 {
        assert(!(exists|i: int| 0 <= i < vs.len() && #[trigger] vs[i].0 == key));
    } else {
        let (k0, v0) = vs[0];
        let tail = vs.drop_first();
        let ms = models(vs);
        assert(ms.drop_first() == models(tail));
        lemma_part_len::<(K, V)>(ms);
        let ek = K::spec_encode(k0.model());
        let ev = V::spec_encode(v0.model());
        let et = encode_each::<(K, V)>(models(tail));
        assert(ms[0] == (k0.model(), v0.model()));
        assert(input == ek + (ev + (et + rest)));
        K::lemma_decode_encode(k0, ev + (et + rest));
        assert(input.skip(ek.len() as int) == ev + (et + rest));
        assert(k0.model() == k0);
        if k0 == key {
            V::lemma_decode_encode(v0, et + rest);
            assert(vs[0].0 == key);
        } else if key.rank() < k0.rank() {
            assert forall|i: int| 0 <= i < vs.len() implies #[trigger] vs[i].0 != key by {
                if i > 0 {
                    assert(vs.map_values(|e: (K, V)| e.0)[0].rank() < vs.map_values(|e: (K, V)| e.0)[i].rank());
                }
            }
        } else {
            lemma_skip_encoded::<V>(v0, et + rest);
            assert(input.skip((ek.len() + ev.len()) as int) == et + rest);
            let vks = vs.map_values(|e: (K, V)| e.0);
            let tks = tail.map_values(|e: (K, V)| e.0);
            assert(rank_increasing(tks)) by {
                assert forall|a: int, b: int| 0 <= a < b < tail.len() implies #[trigger] tks[a].rank()
                    < #[trigger] tks[b].rank() by {
                    assert(vks[a + 1].rank() < vks[b + 1].rank());
                }
            }
            lemma_find_in_entries::<K, V>(tail, key, rest);
            let r = find_entry::<K, V>(et + rest, tail.len(), key);
            assert(r is Ok);
            let c = r->Ok_0.1;
            assert(input.skip((ek.len() + ev.len() + c) as int) =~= (et + rest).skip(c as int));
            assert((exists|i: int| 0 <= i < vs.len() && #[trigger] vs[i].0 == key) == (exists|i: int|
                0 <= i < tail.len() && #[trigger] tail[i].0 == key)) by {
                if exists|i: int| 0 <= i < vs.len() && #[trigger] vs[i].0 == key {
                    let i = choose|i: int| 0 <= i < vs.len() && #[trigger] vs[i].0 == key;
                    assert(i != 0);
                    assert(tail[i - 1].0 == key);
                }
                if exists|i: int| 0 <= i < tail.len() && #[trigger] tail[i].0 == key {
                    let i = choose|i: int| 0 <= i < tail.len() && #[trigger] tail[i].0 == key;
                    assert(vs[i + 1].0 == key);
                }
            }
            if r->Ok_0.0 {
                let i = choose|i: int| 0 <= i < tail.len() && #[trigger] tail[i].0 == key && (V::spec_decode(
                    (et + rest).skip(c as int),
                ) matches Ok((vm, _)) && vm == tail[i].1.model());
                assert(vs[i + 1] == tail[i]);
            }
        }
    }
}

/// Looking for a key in the bytes that serializing an ordered map writes, past the
/// number of entries, finds it exactly when the map holds the key, and the bytes next
/// then decode to the key's value, whatever follows the map.
pub proof fn lemma_find_in_encoded_map<
    K: OrderedKey + RevisionedRoundTrip,
    V: RevisionedRoundTrip + SkipRevisioned,
>(m: BTreeMap<K, V>, key: K, rest: Seq<u8>)
    requires
        <BTreeMap<K, V> as SerializeRevisioned>::spec_encode(m.model()).len() <= usize::MAX,
    ensures
        ({
            let e = <BTreeMap<K, V> as SerializeRevisioned>::spec_encode(m.model());
            let input = e.skip(spec_encode_len(m@.len()).len() as int) + rest;
            find_entry::<K, V>(input, m@.len(), key) matches Ok((found, c)) && found
                == m@.contains_key(key) && (found ==> (V::spec_decode(input.skip(c as int)) matches Ok(
                (vm, _),
            ) && vm == m@[key].model()))
        }),
{
    broadcast use vstd::std_specs::btree::group_btree_axioms;
    K::lemma_ordered();
    let mm = m.model();
    assert(mm.dom() == m@.dom());
    lemma_sorted_keys(m@.dom());
    let ks = sorted_keys(m@.dom());
    let vs = ks.map_values(|k: K| (k, m@[k]));
    assert(models(vs) == map_entries(mm));
    assert(vs.map_values(|e: (K, V)| e.0) == ks);
    let l = spec_encode_len(m@.len());
    let body = encode_each::<(K, V)>(models(vs));
    let e = <BTreeMap<K, V> as SerializeRevisioned>::spec_encode(mm);
    assert(vs.len() == m@.len());
    assert(e == l + body);
    assert(e.skip(l.len() as int) == body);
    lemma_find_in_entries::<K, V>(vs, key, rest);
    assert((exists|i: int| 0 <= i < vs.len() && #[trigger] vs[i].0 == key) == m@.contains_key(key)) by {
        if m@.contains_key(key) {
            assert(ks.contains(key));
            let i = choose|i: int| 0 <= i < ks.len() && ks[i] == key;
            assert(vs[i].0 == key);
        }
        if exists|i: int| 0 <= i < vs.len() && #[trigger] vs[i].0 == key {
            let i = choose|i: int| 0 <= i < vs.len() && #[trigger] vs[i].0 == key;
            assert(ks.contains(ks[i]));
        }
    }
}

} // verus!
