use vstd::prelude::*;
use std::collections::BTreeMap;
use std::collections::BTreeSet;
use vstd::std_specs::iter::IteratorSpec;

use crate::implementations::ordered::{
    lemma_increasing_rank, lemma_increasing_rank_refs, lemma_sorted_keys, lemma_sorted_keys_unique,
    sorted_keys, OrderedKey,
};
use crate::implementations::vecs::{
    decode_each, decode_len, encode_each, encode_len, encode_vec_generic, lemma_decode_each_err,
    spec_decode_len, spec_encode_len, decode_vec_generic, lemma_decode_encode_vec_generic,
    serialize_vec_generic, deserialize_vec_generic,
};
use crate::implementations::skip::{lemma_skip_vec_generic, skip_vec_generic, skip_vec_generic_exec};
use crate::{
    models, DeserializeRevisioned, DeserializeRevisionedVec, Error, ErrorKind, Revisioned,
    RevisionedRoundTrip, RevisionedRoundTripVec, SerializeRevisioned, SerializeRevisionedVec,
    SkipRevisioned,
};

verus! {

broadcast use vstd::std_specs::btree::group_btree_axioms;

/// The entries of a finite map in increasing key order.
pub open spec fn map_entries<K: OrderedKey, W>(m: Map<K, W>) -> Seq<(K, W)> {
    sorted_keys(m.dom()).map_values(|k: K| (k, m[k]))
}

/// The map that inserting the pairs `ps` one after the other into an empty map gives: a
/// later value for a key replaces an earlier one.
pub open spec fn pairs_map<K, W>(ps: Seq<(K, W)>) -> Map<K, W>
    decreases ps.len(),
{
    if ps.len() == 0 {
        Map::empty()
    } else {
        pairs_map(ps.drop_last()).insert(ps.last().0, ps.last().1)
    }
}

/// Inserting the entries of a finite map, in key order, into an empty map gives the map back.
pub proof fn lemma_pairs_map_entries<K: OrderedKey, W>(m: Map<K, W>)
    requires
        m.dom().finite(),
    ensures
        pairs_map(map_entries(m)) == m,
{
    lemma_sorted_keys(m.dom());
    let ks = sorted_keys(m.dom());
    lemma_pairs_map_prefix(m, ks, ks.len() as int);
    assert(ks.take(ks.len() as int) == ks);
    assert(map_entries(m) == ks.map_values(|k: K| (k, m[k])));
    assert forall|k: K| #[trigger] m.dom().contains(k) == ks.to_set().contains(k) by {
        if m.dom().contains(k) {
            assert(ks.contains(k));
        }
    }
    assert(m.restrict(ks.to_set()) == m);
}

/// Inserting the entries of `m` for the first `n` keys of `ks` gives `m` restricted to
/// those keys.
proof fn lemma_pairs_map_prefix<K: OrderedKey, W>(m: Map<K, W>, ks: Seq<K>, n: int)
    requires
        0 <= n <= ks.len(),
        forall|i: int| 0 <= i < ks.len() ==> m.dom().contains(#[trigger] ks[i]),
    ensures
        pairs_map(ks.take(n).map_values(|k: K| (k, m[k]))) == m.restrict(ks.take(n).to_set()),
    decreases n,
{
    let ps = ks.take(n).map_values(|k: K| (k, m[k]));
    if n == 0 {
        assert(ks.take(0).to_set() == Set::<K>::empty());
        assert(m.restrict(Set::<K>::empty()) == Map::<K, W>::empty());
    } else {
        lemma_pairs_map_prefix(m, ks, n - 1);
        assert(ps.drop_last() == ks.take(n - 1).map_values(|k: K| (k, m[k])));
        assert(ks.take(n).to_set() == ks.take(n - 1).to_set().insert(ks[n - 1])) by {
            assert forall|x: K| ks.take(n).to_set().contains(x) <==> ks.take(n - 1).to_set().insert(
                ks[n - 1],
            ).contains(x) by {
                if ks.take(n).contains(x) {
                    let i = choose|i: int| 0 <= i < n && #[trigger] ks.take(n)[i] == x;
                    if i < n - 1 {
                        assert(ks.take(n - 1)[i] == x);
                    }
                }
                if ks.take(n - 1).contains(x) {
                    let i = choose|i: int| 0 <= i < n - 1 && #[trigger] ks.take(n - 1)[i] == x;
                    assert(ks.take(n)[i] == x);
                }
                if x == ks[n - 1] {
                    assert(ks.take(n)[n - 1] == x);
                }
            }
        }
        assert(pairs_map(ps) == m.restrict(ks.take(n).to_set()));
    }
}

/// Serializes a map in increasing key order: the number of entries, then each key and
/// its value.
pub fn serialize_btree_map<K: OrderedKey + SerializeRevisioned, V: SerializeRevisioned>(
    m: &BTreeMap<K, V>,
    writer: &mut Vec<u8>,
) -> (r: Result<(), Error>)
    ensures
        r is Ok,
        final(writer)@ == old(writer)@ + encode_vec_generic::<(K, V)>(
            map_entries(m@.map_values(|v: V| v.model())),
        ),
{
    let ghost mm = m@.map_values(|v: V| v.model());
    let ghost ents = map_entries(mm);
    proof {
        K::lemma_ordered();
        lemma_sorted_keys(m@.dom());
        assert(mm.dom() == m@.dom());
    }
    let len = m.len();
    encode_len(writer, len);
    let ghost start = writer@;
    let mut i: usize = 0;
    for (k, v) in it: m.iter()
        invariant
            len == m@.dom().len(),
            ents == map_entries(mm),
            mm == m@.map_values(|v: V| v.model()),
            ents.len() == len,
            it.seq().len() == len,
            i == it.index(),
            vstd::std_specs::btree::increasing_seq(it.seq().map_values(|kv: (&K, &V)| *kv.0)),
            forall|j: int|
                0 <= j < it.seq().len() ==> m@.contains_key(*(#[trigger] it.seq()[j]).0) && m@[*it.seq()[j].0]
                    == *it.seq()[j].1,
            forall|key: K|
                m@.contains_key(key) ==> exists|j: int| 0 <= j < it.seq().len() && *(#[trigger] it.seq()[j]).0 == key,
            start == old(writer)@ + spec_encode_len(len as nat),
            writer@ == start + encode_each::<(K, V)>(ents.take(i as int)),
    {
        proof {
            let ks = it.seq().map_values(|kv: (&K, &V)| *kv.0);
            assert forall|x: K| ks.contains(x) <==> m@.dom().contains(x) by {
                if m@.dom().contains(x) {
                    let j = choose|j: int| 0 <= j < it.seq().len() && *(#[trigger] it.seq()[j]).0 == x;
                    assert(ks[j] == x);
                }
                if ks.contains(x) {
                    let j = choose|j: int| 0 <= j < ks.len() && ks[j] == x;
                    assert(*it.seq()[j].0 == x);
                }
            }
            lemma_increasing_rank(ks);
            lemma_sorted_keys_unique(m@.dom(), ks);
            assert(it.seq()[i as int] == (k, v));
            assert(mm.dom() == m@.dom());
            assert(ks[i as int] == *k);
            assert(m@[*k] == *v);
            assert(ents[i as int] == (*k, v.model()));
        }
        let _ = k.serialize_revisioned(writer);
        let _ = v.serialize_revisioned(writer);
        proof {
            K::lemma_ordered();
            assert(ents.take(i + 1).drop_last() == ents.take(i as int));
            assert(ents.take(i + 1).last() == (k.model(), v.model()));
        }
        i += 1;
    }
    assert(ents.take(len as int) == ents);
    Ok(())
}

/// Decoding a map: a length, then that many keys each followed by its value, inserted
/// one after the other.
pub open spec fn decode_btree_map<K: OrderedKey + DeserializeRevisioned, V: DeserializeRevisioned>(
    input: Seq<u8>,
) -> Result<(Map<K, V::Model>, nat), ErrorKind> {
    match decode_vec_generic::<(K, V)>(input) {
        Ok((ps, n)) => Ok((pairs_map(ps), n)),
        Err(e) => Err(e),
    }
}

/// Deserializes a map: reads its length, then that many keys each followed by its value,
/// and inserts each entry in turn.
pub fn deserialize_btree_map<K: OrderedKey + DeserializeRevisioned, V: DeserializeRevisioned>(
    reader: &mut &[u8],
) -> (res: Result<BTreeMap<K, V>, Error>)
    ensures
        match res {
            Ok(m) => decode_btree_map::<K, V>(old(reader)@) matches Ok((mm, n))
                && mm == m@.map_values(|v: V| v.model()) && n <= old(reader)@.len()
                && final(reader)@ == old(reader)@.skip(n as int),
            Err(e) => decode_btree_map::<K, V>(old(reader)@) == Err::<(Map<K, V::Model>, nat), ErrorKind>(
                e.kind(),
            ),
        },
{
    proof {
        K::lemma_ordered();
    }
    let ghost input = reader@;
    let len = match decode_len(reader) {
        Ok(len) => len,
        Err(e) => return Err(e),
    };
    let ghost k: nat = (input.len() - reader@.len()) as nat;
    let ghost body = reader@;
    assert(body == input.skip(k as int));
    let mut map: BTreeMap<K, V> = BTreeMap::new();
    let mut i: usize = 0;
    let ghost mut consumed: nat = 0;
    let ghost mut ps: Seq<(K, V::Model)> = Seq::empty();
    assert(map@.map_values(|v: V| v.model()) == pairs_map(ps));
    while i < len
        invariant
            0 <= i <= len,
            input == old(reader)@,
            body == input.skip(k as int),
            k <= input.len(),
            spec_decode_len(input) == Ok::<(nat, nat), ErrorKind>((len as nat, k)),
            decode_each::<(K, V)>(body, i as nat) == Ok::<(Seq<(K, V::Model)>, nat), ErrorKind>(
                (ps, consumed),
            ),
            map@.map_values(|v: V| v.model()) == pairs_map(ps),
            consumed <= body.len(),
            reader@ == body.skip(consumed as int),
        decreases len - i,
    {
        let ghost before = reader@;
        let (key, value) = match <(K, V)>::deserialize_revisioned(reader) {
            Ok(kv) => kv,
            Err(e) => {
                proof {
                    lemma_decode_each_err::<(K, V)>(body, (i + 1) as nat, len as nat);
                }
                return Err(e);
            },
        };
        proof {
            K::lemma_ordered();
            let n = (before.len() - reader@.len()) as nat;
            assert(body.skip(consumed as int).skip(n as int) == body.skip((consumed + n) as int));
            let old_ps = ps;
            ps = ps.push((key.model(), value.model()));
            assert(ps.drop_last() == old_ps);
            assert(map@.insert(key, value).map_values(|v: V| v.model()) == map@.map_values(
                |v: V| v.model(),
            ).insert(key, value.model()));
            consumed = consumed + n;
        }
        map.insert(key, value);
        i += 1;
    }
    proof {
        assert(input.skip(k as int).skip(consumed as int) == input.skip((k + consumed) as int));
    }
    Ok(map)
}

impl<K: OrderedKey, V: Revisioned> Revisioned for BTreeMap<K, V> {
    /// Each key with the model of its value.
    type Model = Map<K, V::Model>;

    open spec fn model(&self) -> Map<K, V::Model> {
        self@.map_values(|v: V| v.model())
    }

    open spec fn spec_revision() -> u16 {
        1
    }

    fn revision() -> (r: u16) {
        1
    }
}

impl<K: OrderedKey + SerializeRevisioned, V: SerializeRevisioned> SerializeRevisioned for BTreeMap<
    K,
    V,
> {
    /// The number of entries, then each key followed by its value, in increasing key order.
    open spec fn spec_encode(m: Map<K, V::Model>) -> Seq<u8> {
        encode_vec_generic::<(K, V)>(map_entries(m))
    }

    fn serialize_revisioned(&self, writer: &mut Vec<u8>) -> (r: Result<(), Error>) {
        serialize_btree_map(self, writer)
    }
}

impl<K: OrderedKey + DeserializeRevisioned, V: DeserializeRevisioned> DeserializeRevisioned for BTreeMap<
    K,
    V,
> {
    /// A length, then that many keys each followed by its value, inserted in turn.
    open spec fn spec_decode(input: Seq<u8>) -> Result<(Map<K, V::Model>, nat), ErrorKind> {
        decode_btree_map::<K, V>(input)
    }

    fn deserialize_revisioned(reader: &mut &[u8]) -> (res: Result<BTreeMap<K, V>, Error>) {
        deserialize_btree_map(reader)
    }
}

impl<K: OrderedKey + RevisionedRoundTrip, V: RevisionedRoundTrip> RevisionedRoundTrip for BTreeMap<
    K,
    V,
> {
    proof fn lemma_decode_encode(v: BTreeMap<K, V>, rest: Seq<u8>) {
        K::lemma_ordered();
        let mm = v.model();
        assert(mm.dom() == v@.dom());
        lemma_sorted_keys(v@.dom());
        let ks = sorted_keys(v@.dom());
        let vs = ks.map_values(|k: K| (k, v@[k]));
        assert(models(vs) == map_entries(mm));
        assert(vs.len() <= usize::MAX) by {
            assert(vstd::std_specs::btree::spec_btree_map_len(&v) == v@.len());
        }
        lemma_decode_encode_vec_generic::<(K, V)>(vs, rest);
        lemma_pairs_map_entries(mm);
    }
}

impl<K: OrderedKey + SkipRevisioned, V: SkipRevisioned> SkipRevisioned for BTreeMap<K, V> {
    /// A length, then that many keys each followed by its value.
    open spec fn spec_skip(input: Seq<u8>) -> Result<nat, ErrorKind> {
        skip_vec_generic::<(K, V)>(input)
    }

    fn skip_revisioned(reader: &mut &[u8]) -> (r: Result<(), Error>) {
        skip_vec_generic_exec::<(K, V)>(reader)
    }

    proof fn lemma_skip_decode(input: Seq<u8>) {
        lemma_skip_vec_generic::<(K, V)>(input);
    }
}

impl<K: OrderedKey + SerializeRevisioned, V: SerializeRevisioned> SerializeRevisionedVec for BTreeMap<
    K,
    V,
> {
    open spec fn spec_encode_vec(ms: Seq<Map<K, V::Model>>) -> Seq<u8> {
        encode_vec_generic::<BTreeMap<K, V>>(ms)
    }

    fn serialize_revisioned_vec(v: &Vec<BTreeMap<K, V>>, writer: &mut Vec<u8>) -> (r: Result<(), Error>) {
        serialize_vec_generic(v, writer)
    }
}

impl<K: OrderedKey + DeserializeRevisioned, V: DeserializeRevisioned> DeserializeRevisionedVec for BTreeMap<
    K,
    V,
> {
    open spec fn spec_decode_vec(input: Seq<u8>) -> Result<(Seq<Map<K, V::Model>>, nat), ErrorKind> {
        decode_vec_generic::<BTreeMap<K, V>>(input)
    }

    fn deserialize_revisioned_vec(reader: &mut &[u8]) -> (res: Result<Vec<BTreeMap<K, V>>, Error>) {
        deserialize_vec_generic(reader)
    }
}

/// The items of a set are finitely many.
pub proof fn lemma_btree_set_finite<T: OrderedKey>(s: &BTreeSet<T>)
    ensures
        s@.finite(),
{
    broadcast use vstd::seq_lib::seq_to_set_is_finite;
    T::lemma_ordered();
    assert(vstd::std_specs::btree::spec_btree_keys_iter(s).remaining().unref().to_set() == s@);
}

/// Serializes a set in increasing order: the number of items, then each item.
pub fn serialize_btree_set<T: OrderedKey + SerializeRevisioned>(s: &BTreeSet<T>, writer: &mut Vec<u8>) -> (r:
    Result<(), Error>)
    ensures
        r is Ok,
        final(writer)@ == old(writer)@ + encode_vec_generic::<T>(sorted_keys(s@)),
{
    proof {
        T::lemma_ordered();
    }
    let len = s.len();
    let ghost ents = sorted_keys(s@);
    encode_len(writer, len);
    let ghost start = writer@;
    let mut i: usize = 0;
    for x in it: s.iter()
        invariant
            len == s@.len(),
            ents == sorted_keys(s@),
            it.seq().len() == len,
            i == it.index(),
            vstd::std_specs::btree::increasing_seq(it.seq()),
            it.seq().unref().to_set() == s@,
            start == old(writer)@ + spec_encode_len(len as nat),
            writer@ == start + encode_each::<T>(ents.take(i as int)),
    {
        proof {
            let ks = it.seq().map_values(|k: &T| *k);
            assert(ks == it.seq().unref());
            lemma_increasing_rank_refs(it.seq());
            assert forall|y: T| ks.contains(y) <==> s@.contains(y) by {
                assert(ks.to_set().contains(y) == ks.contains(y));
            }
            lemma_sorted_keys_unique(s@, ks);
            assert(it.seq()[i as int] == x);
            assert(ks[i as int] == *x);
        }
        let _ = x.serialize_revisioned(writer);
        proof {
            T::lemma_ordered();
            assert(ents.take(i + 1).drop_last() == ents.take(i as int));
            assert(ents.take(i + 1).last() == x.model());
        }
        i += 1;
    }
    proof {
        lemma_btree_set_finite(s);
        lemma_sorted_keys(s@);
    }
    assert(ents.take(len as int) == ents);
    Ok(())
}

/// Decoding a set: a length, then that many items, inserted one after the other.
pub open spec fn decode_btree_set<T: OrderedKey + DeserializeRevisioned>(input: Seq<u8>) -> Result<
    (Set<T>, nat),
    ErrorKind,
> {
    match decode_vec_generic::<T>(input) {
        Ok((ts, n)) => Ok((ts.to_set(), n)),
        Err(e) => Err(e),
    }
}

/// Deserializes a set: reads its length, then that many items, and inserts each in turn.
pub fn deserialize_btree_set<T: OrderedKey + DeserializeRevisioned>(reader: &mut &[u8]) -> (res:
    Result<BTreeSet<T>, Error>)
    ensures
        match res {
            Ok(s) => decode_btree_set::<T>(old(reader)@) matches Ok((ss, n)) && ss == s@ && n
                <= old(reader)@.len() && final(reader)@ == old(reader)@.skip(n as int),
            Err(e) => decode_btree_set::<T>(old(reader)@) == Err::<(Set<T>, nat), ErrorKind>(e.kind()),
        },
{
    let ghost input = reader@;
    let len = match decode_len(reader) {
        Ok(len) => len,
        Err(e) => return Err(e),
    };
    let ghost k: nat = (input.len() - reader@.len()) as nat;
    let ghost body = reader@;
    assert(body == input.skip(k as int));
    let mut set: BTreeSet<T> = BTreeSet::new();
    let mut i: usize = 0;
    let ghost mut consumed: nat = 0;
    let ghost mut ts: Seq<T> = Seq::empty();
    assert(set@ == ts.to_set());
    while i < len
        invariant
            0 <= i <= len,
            input == old(reader)@,
            body == input.skip(k as int),
            k <= input.len(),
            spec_decode_len(input) == Ok::<(nat, nat), ErrorKind>((len as nat, k)),
            decode_each::<T>(body, i as nat) == Ok::<(Seq<T>, nat), ErrorKind>((ts, consumed)),
            set@ == ts.to_set(),
            consumed <= body.len(),
            reader@ == body.skip(consumed as int),
        decreases len - i,
    {
        let ghost before = reader@;
        let x = match T::deserialize_revisioned(reader) {
            Ok(x) => x,
            Err(e) => {
                proof {
                    lemma_decode_each_err::<T>(body, (i + 1) as nat, len as nat);
                }
                return Err(e);
            },
        };
        proof {
            T::lemma_ordered();
            let n = (before.len() - reader@.len()) as nat;
            assert(body.skip(consumed as int).skip(n as int) == body.skip((consumed + n) as int));
            ts.lemma_push_to_set_commute(x);
            ts = ts.push(x.model());
            consumed = consumed + n;
        }
        set.insert(x);
        i += 1;
    }
    proof {
        assert(input.skip(k as int).skip(consumed as int) == input.skip((k + consumed) as int));
    }
    Ok(set)
}

impl<T: OrderedKey> Revisioned for BTreeSet<T> {
    /// The items of the set.
    type Model = Set<T>;

    open spec fn model(&self) -> Set<T> {
        self@
    }

    open spec fn spec_revision() -> u16 {
        1
    }

    fn revision() -> (r: u16) {
        1
    }
}

impl<T: OrderedKey + SerializeRevisioned> SerializeRevisioned for BTreeSet<T> {
    /// The number of items, then each item, in increasing order.
    open spec fn spec_encode(m: Set<T>) -> Seq<u8> {
        encode_vec_generic::<T>(sorted_keys(m))
    }

    fn serialize_revisioned(&self, writer: &mut Vec<u8>) -> (r: Result<(), Error>) {
        serialize_btree_set(self, writer)
    }
}

impl<T: OrderedKey + DeserializeRevisioned> DeserializeRevisioned for BTreeSet<T> {
    /// A length, then that many items, inserted in turn.
    open spec fn spec_decode(input: Seq<u8>) -> Result<(Set<T>, nat), ErrorKind> {
        decode_btree_set::<T>(input)
    }

    fn deserialize_revisioned(reader: &mut &[u8]) -> (res: Result<BTreeSet<T>, Error>) {
        deserialize_btree_set(reader)
    }
}

impl<T: OrderedKey + RevisionedRoundTrip> RevisionedRoundTrip for BTreeSet<T> {
    proof fn lemma_decode_encode(v: BTreeSet<T>, rest: Seq<u8>) {
        T::lemma_ordered();
        lemma_btree_set_finite(&v);
        lemma_sorted_keys(v@);
        let ks = sorted_keys(v@);
        assert(models(ks) == ks);
        assert(ks.len() <= usize::MAX) by {
            assert(vstd::std_specs::btree::spec_btree_set_len(&v) == v@.len());
        }
        lemma_decode_encode_vec_generic::<T>(ks, rest);
        assert(ks.to_set() == v@);
    }
}

impl<T: OrderedKey + SkipRevisioned> SkipRevisioned for BTreeSet<T> {
    /// A length, then that many items.
    open spec fn spec_skip(input: Seq<u8>) -> Result<nat, ErrorKind> {
        skip_vec_generic::<T>(input)
    }

    fn skip_revisioned(reader: &mut &[u8]) -> (r: Result<(), Error>) {
        skip_vec_generic_exec::<T>(reader)
    }

    proof fn lemma_skip_decode(input: Seq<u8>) {
        lemma_skip_vec_generic::<T>(input);
    }
}

impl<T: OrderedKey + SerializeRevisioned> SerializeRevisionedVec for BTreeSet<T> {
    open spec fn spec_encode_vec(ms: Seq<Set<T>>) -> Seq<u8> {
        encode_vec_generic::<BTreeSet<T>>(ms)
    }

    fn serialize_revisioned_vec(v: &Vec<BTreeSet<T>>, writer: &mut Vec<u8>) -> (r: Result<(), Error>) {
        serialize_vec_generic(v, writer)
    }
}

impl<T: OrderedKey + DeserializeRevisioned> DeserializeRevisionedVec for BTreeSet<T> {
    open spec fn spec_decode_vec(input: Seq<u8>) -> Result<(Seq<Set<T>>, nat), ErrorKind> {
        decode_vec_generic::<BTreeSet<T>>(input)
    }

    fn deserialize_revisioned_vec(reader: &mut &[u8]) -> (res: Result<Vec<BTreeSet<T>>, Error>) {
        deserialize_vec_generic(reader)
    }
}

impl<K: OrderedKey + RevisionedRoundTrip, V: RevisionedRoundTrip> RevisionedRoundTripVec for BTreeMap<
    K,
    V,
> {
    proof fn lemma_decode_encode_vec(vs: Seq<BTreeMap<K, V>>, rest: Seq<u8>) {
        lemma_decode_encode_vec_generic::<BTreeMap<K, V>>(vs, rest);
    }
}

impl<T: OrderedKey + RevisionedRoundTrip> RevisionedRoundTripVec for BTreeSet<T> {
    proof fn lemma_decode_encode_vec(vs: Seq<BTreeSet<T>>, rest: Seq<u8>) {
        lemma_decode_encode_vec_generic::<BTreeSet<T>>(vs, rest);
    }
}

} // verus!


