use vstd::prelude::*;
use std::collections::{BTreeMap, BTreeSet, HashMap, HashSet};
use std::hash::Hash;
use vstd::std_specs::iter::IteratorSpec;

use crate::implementations::collections::{
    decode_btree_map, decode_btree_set, lemma_pairs_map_entries, map_entries, pairs_map,
    serialize_btree_set,
};
use crate::implementations::skip::{lemma_skip_vec_generic, skip_vec_generic, skip_vec_generic_exec};
use crate::implementations::ordered::{
    lemma_increasing_rank, lemma_sorted_keys, lemma_sorted_keys_unique, OrderedKey,
};
use crate::implementations::vecs::{
    decode_each, decode_len, decode_vec_generic, deserialize_vec_generic, encode_each, encode_len,
    encode_vec_generic, lemma_decode_each_err, lemma_decode_encode_vec_generic, serialize_vec_generic,
    spec_decode_len, spec_encode_len,
};
use crate::{
    models, DeserializeRevisioned, DeserializeRevisionedVec, Error, ErrorKind, Revisioned,
    RevisionedRoundTrip, RevisionedRoundTripVec, SerializeRevisioned, SerializeRevisionedVec,
    SkipRevisioned,
};

verus! {

broadcast use {vstd::std_specs::btree::group_btree_axioms, vstd::std_specs::hash::group_hash_axioms};

/// Writes the entries of an ordered map of borrowed values in key order: the number of
/// entries, then each key followed by its value.
fn write_entries_in_order<K: OrderedKey + SerializeRevisioned, V: SerializeRevisioned>(
    b: &BTreeMap<K, &V>,
    writer: &mut Vec<u8>,
) -> (r: Result<(), Error>)
    ensures
        r is Ok,
        final(writer)@ == old(writer)@ + encode_vec_generic::<(K, V)>(
            map_entries(b@.map_values(|v: &V| v.model())),
        ),
{
    let ghost mm = b@.map_values(|v: &V| v.model());
    let ghost ents = map_entries(mm);
    proof {
        K::lemma_ordered();
        lemma_sorted_keys(b@.dom());
        assert(mm.dom() == b@.dom());
    }
    let len = b.len();
    encode_len(writer, len);
    let ghost start = writer@;
    let mut i: usize = 0;
    for (k, v) in it: b.iter()
        invariant
            len == b@.dom().len(),
            ents == map_entries(mm),
            mm == b@.map_values(|v: &V| v.model()),
            ents.len() == len,
            it.seq().len() == len,
            i == it.index(),
            vstd::std_specs::btree::increasing_seq(it.seq().map_values(|kv: (&K, &&V)| *kv.0)),
            forall|j: int|
                0 <= j < it.seq().len() ==> b@.contains_key(*(#[trigger] it.seq()[j]).0) && b@[*it.seq()[j].0]
                    == *it.seq()[j].1,
            forall|key: K|
                b@.contains_key(key) ==> exists|j: int| 0 <= j < it.seq().len() && *(#[trigger] it.seq()[j]).0 == key,
            start == old(writer)@ + spec_encode_len(len as nat),
            writer@ == start + encode_each::<(K, V)>(ents.take(i as int)),
    {
        proof {
            let ks = it.seq().map_values(|kv: (&K, &&V)| *kv.0);
            assert forall|x: K| ks.contains(x) <==> b@.dom().contains(x) by {
                if b@.dom().contains(x) {
                    let j = choose|j: int| 0 <= j < it.seq().len() && *(#[trigger] it.seq()[j]).0 == x;
                    assert(ks[j] == x);
                }
                if ks.contains(x) {
                    let j = choose|j: int| 0 <= j < ks.len() && ks[j] == x;
                    assert(*it.seq()[j].0 == x);
                }
            }
            lemma_increasing_rank(ks);
            lemma_sorted_keys_unique(b@.dom(), ks);
            assert(it.seq()[i as int] == (k, v));
            assert(mm.dom() == b@.dom());
            assert(ks[i as int] == *k);
            assert(ents[i as int] == (*k, (**v).model()));
        }
        let _ = k.serialize_revisioned(writer);
        let _ = (*v).serialize_revisioned(writer);
        proof {
            K::lemma_ordered();
            assert(ents.take(i + 1).drop_last() == ents.take(i as int));
            assert(ents.take(i + 1).last() == (k.model(), (**v).model()));
        }
        i += 1;
    }
    assert(ents.take(len as int) == ents);
    Ok(())
}

/// Serializes a hash map with its entries in increasing key order: the number of entries,
/// then each key followed by its value. Any order of the entries decodes to the same map;
/// this one does not depend on how the map hashes.
pub fn serialize_hash_map<K: OrderedKey + Copy + Hash + SerializeRevisioned, V: SerializeRevisioned>(
    m: &HashMap<K, V>,
    writer: &mut Vec<u8>,
) -> (r: Result<(), Error>)
    ensures
        r is Ok,
        final(writer)@ == old(writer)@ + encode_vec_generic::<(K, V)>(
            map_entries(m@.map_values(|v: V| v.model())),
        ),
{
    proof {
        K::lemma_ordered();
    }
    let len = m.len();
    let mut b: BTreeMap<K, &V> = BTreeMap::new();
    let mut i: usize = 0;
    for (k, v) in it: m.iter()
        invariant
            len == m@.dom().len(),
            it.seq().len() == len,
            i == it.index(),
            it.seq().no_duplicates(),
            forall|j: int|
                0 <= j < it.seq().len() ==> m@.contains_key(*(#[trigger] it.seq()[j]).0) && m@[*it.seq()[j].0]
                    == *it.seq()[j].1,
            forall|key: K|
                #[trigger] b@.contains_key(key) <==> exists|j: int| 0 <= j < i && *(#[trigger] it.seq()[j]).0 == key,
            forall|key: K| #[trigger] b@.contains_key(key) ==> m@.contains_key(key) && *b@[key] == m@[key],
            b@.dom().len() == i,
            b@.dom().finite(),
    {
        proof {
            K::lemma_ordered();
            assert(it.seq()[i as int] == (k, v));
            if b@.contains_key(*k) {
                let j = choose|j: int| 0 <= j < i && *(#[trigger] it.seq()[j]).0 == *k;
                assert(it.seq()[j] == it.seq()[i as int]);
            }
        }
        b.insert(*k, v);
        proof {
            assert forall|key: K| #[trigger] b@.contains_key(key) <==> exists|j: int| 0 <= j < i + 1 && *(#[trigger] it.seq()[j]).0 == key by {
                if key == *k {
                    assert(*it.seq()[i as int].0 == key);
                }
            }
        }
        i += 1;
    }
    proof {
        assert(b@.dom().subset_of(m@.dom()));
        vstd::set_lib::lemma_subset_equality(b@.dom(), m@.dom());
        assert(b@.map_values(|v: &V| v.model()) == m@.map_values(|v: V| v.model()));
    }
    write_entries_in_order(&b, writer)
}

/// Deserializes a hash map: reads its length, then that many keys each followed by its
/// value, and inserts each entry in turn.
pub fn deserialize_hash_map<K: OrderedKey + Hash + DeserializeRevisioned, V: DeserializeRevisioned>(
    reader: &mut &[u8],
) -> (res: Result<HashMap<K, V>, Error>)
    ensures
        match res {
            Ok(m) => decode_btree_map::<K, V>(old(reader)@) matches Ok((mm, n))
                && mm == m@.map_values(|v: V| v.model()) && n <= old(reader)@.len()
                && final(reader)@ == old(reader)@.skip(n as int),
            Err(e) => decode_btree_map::<K, V>(old(reader)@) == Err::<(Map<K, V::Model>, nat), ErrorKind>(
                e.kind(),
            ),
        },
{
    proof {
        K::lemma_ordered();
    }
    let ghost input = reader@;
    let len = match decode_len(reader) {
        Ok(len) => len,
        Err(e) => return Err(e),
    };
    let ghost k: nat = (input.len() - reader@.len()) as nat;
    let ghost body = reader@;
    assert(body == input.skip(k as int));
    let mut map: HashMap<K, V> = HashMap::new();
    let mut i: usize = 0;
    let ghost mut consumed: nat = 0;
    let ghost mut ps: Seq<(K, V::Model)> = Seq::empty();
    assert(map@.map_values(|v: V| v.model()) == pairs_map(ps));
    while i < len
        invariant
            0 <= i <= len,
            input == old(reader)@,
            body == input.skip(k as int),
            k <= input.len(),
            spec_decode_len(input) == Ok::<(nat, nat), ErrorKind>((len as nat, k)),
            decode_each::<(K, V)>(body, i as nat) == Ok::<(Seq<(K, V::Model)>, nat), ErrorKind>(
                (ps, consumed),
            ),
            map@.map_values(|v: V| v.model()) == pairs_map(ps),
            consumed <= body.len(),
            reader@ == body.skip(consumed as int),
        decreases len - i,
    {
        let ghost before = reader@;
        let (key, value) = match <(K, V)>::deserialize_revisioned(reader) {
            Ok(kv) => kv,
            Err(e) => {
                proof {
                    lemma_decode_each_err::<(K, V)>(body, (i + 1) as nat, len as nat);
                }
                return Err(e);
            },
        };
        proof {
            K::lemma_ordered();
            let n = (before.len() - reader@.len()) as nat;
            assert(body.skip(consumed as int).skip(n as int) == body.skip((consumed + n) as int));
            let old_ps = ps;
            ps = ps.push((key.model(), value.model()));
            assert(ps.drop_last() == old_ps);
            assert(map@.insert(key, value).map_values(|v: V| v.model()) == map@.map_values(
                |v: V| v.model(),
            ).insert(key, value.model()));
            consumed = consumed + n;
        }
        map.insert(key, value);
        i += 1;
    }
    proof {
        assert(input.skip(k as int).skip(consumed as int) == input.skip((k + consumed) as int));
    }
    Ok(map)
}

impl<K: OrderedKey + Hash, V: Revisioned> Revisioned for HashMap<K, V> {
    /// Each key with the model of its value.
    type Model = Map<K, V::Model>;

    open spec fn model(&self) -> Map<K, V::Model> {
        self@.map_values(|v: V| v.model())
    }

    open spec fn spec_revision() -> u16 {
        1
    }

    fn revision() -> (r: u16) {
        1
    }
}

impl<K: OrderedKey + Copy + Hash + SerializeRevisioned, V: SerializeRevisioned> SerializeRevisioned for HashMap<
    K,
    V,
> {
    /// The number of entries, then each key followed by its value, in increasing key order.
    open spec fn spec_encode(m: Map<K, V::Model>) -> Seq<u8> {
        encode_vec_generic::<(K, V)>(map_entries(m))
    }

    fn serialize_revisioned(&self, writer: &mut Vec<u8>) -> (r: Result<(), Error>) {
        serialize_hash_map(self, writer)
    }
}

impl<K: OrderedKey + Hash + DeserializeRevisioned, V: DeserializeRevisioned> DeserializeRevisioned for HashMap<
    K,
    V,
> {
    /// A length, then that many keys each followed by its value, inserted in turn.
    open spec fn spec_decode(input: Seq<u8>) -> Result<(Map<K, V::Model>, nat), ErrorKind> {
        decode_btree_map::<K, V>(input)
    }

    fn deserialize_revisioned(reader: &mut &[u8]) -> (res: Result<HashMap<K, V>, Error>) {
        deserialize_hash_map(reader)
    }
}

impl<K: OrderedKey + Copy + Hash + RevisionedRoundTrip, V: RevisionedRoundTrip> RevisionedRoundTrip for HashMap<
    K,
    V,
> {
    proof fn lemma_decode_encode(v: HashMap<K, V>, rest: Seq<u8>) {
        K::lemma_ordered();
        let mm = v.model();
        assert(mm.dom() == v@.dom());
        lemma_sorted_keys(v@.dom());
        let ks = crate::implementations::ordered::sorted_keys(v@.dom());
        let vs = ks.map_values(|k: K| (k, v@[k]));
        assert(models(vs) == map_entries(mm));
        assert(vs.len() <= usize::MAX) by {
            assert(vstd::std_specs::hash::spec_hash_map_len(&v) == v@.len());
        }
        lemma_decode_encode_vec_generic::<(K, V)>(vs, rest);
        lemma_pairs_map_entries(mm);
    }
}

impl<K: OrderedKey + Hash + SkipRevisioned, V: SkipRevisioned> SkipRevisioned for HashMap<K, V> {
    /// A length, then that many keys each followed by its value.
    open spec fn spec_skip(input: Seq<u8>) -> Result<nat, ErrorKind> {
        skip_vec_generic::<(K, V)>(input)
    }

    fn skip_revisioned(reader: &mut &[u8]) -> (r: Result<(), Error>) {
        skip_vec_generic_exec::<(K, V)>(reader)
    }

    proof fn lemma_skip_decode(input: Seq<u8>) {
        lemma_skip_vec_generic::<(K, V)>(input);
    }
}

impl<K: OrderedKey + Copy + Hash + SerializeRevisioned, V: SerializeRevisioned> SerializeRevisionedVec for HashMap<
    K,
    V,
> {
    open spec fn spec_encode_vec(ms: Seq<Map<K, V::Model>>) -> Seq<u8> {
        encode_vec_generic::<HashMap<K, V>>(ms)
    }

    fn serialize_revisioned_vec(v: &Vec<HashMap<K, V>>, writer: &mut Vec<u8>) -> (r: Result<(), Error>) {
        serialize_vec_generic(v, writer)
    }
}

impl<K: OrderedKey + Hash + DeserializeRevisioned, V: DeserializeRevisioned> DeserializeRevisionedVec for HashMap<
    K,
    V,
> {
    open spec fn spec_decode_vec(input: Seq<u8>) -> Result<(Seq<Map<K, V::Model>>, nat), ErrorKind> {
        decode_vec_generic::<HashMap<K, V>>(input)
    }

    fn deserialize_revisioned_vec(reader: &mut &[u8]) -> (res: Result<Vec<HashMap<K, V>>, Error>) {
        deserialize_vec_generic(reader)
    }
}

/// The items of a hash set are finitely many.
pub proof fn lemma_hash_set_finite<T: OrderedKey + Hash>(s: &HashSet<T>)
    ensures
        s@.finite(),
{
    broadcast use vstd::seq_lib::seq_to_set_is_finite;
    T::lemma_ordered();
    assert(vstd::std_specs::hash::spec_hash_keys_iter(s).remaining().unref().to_set() == s@);
}

/// Serializes a hash set with its items in increasing order: the number of items, then
/// each item. Any order of the items decodes to the same set; this one does not depend on
/// how the set hashes.
pub fn serialize_hash_set<T: OrderedKey + Copy + Hash + SerializeRevisioned>(
    s: &HashSet<T>,
    writer: &mut Vec<u8>,
) -> (r: Result<(), Error>)
    ensures
        r is Ok,
        final(writer)@ == old(writer)@ + encode_vec_generic::<T>(
            crate::implementations::ordered::sorted_keys(s@),
        ),
{
    proof {
        T::lemma_ordered();
        lemma_hash_set_finite(s);
    }
    let len = s.len();
    let mut b: BTreeSet<T> = BTreeSet::new();
    let mut i: usize = 0;
    for x in it: s.iter()
        invariant
            len == s@.len(),
            s@.finite(),
            it.seq().len() == len,
            i == it.index(),
            it.seq().no_duplicates(),
            it.seq().unref().to_set() == s@,
            forall|y: T| #[trigger] b@.contains(y) <==> exists|j: int| 0 <= j < i && *(#[trigger] it.seq()[j]) == y,
            forall|y: T| #[trigger] b@.contains(y) ==> s@.contains(y),
            b@.len() == i,
            b@.finite(),
    {
        proof {
            T::lemma_ordered();
            assert(it.seq()[i as int] == x);
            if b@.contains(*x) {
                let j = choose|j: int| 0 <= j < i && *(#[trigger] it.seq()[j]) == *x;
                assert(it.seq()[j] == it.seq()[i as int]);
            }
        }
        b.insert(*x);
        proof {
            assert forall|y: T| #[trigger] b@.contains(y) <==> exists|j: int| 0 <= j < i + 1 && *(#[trigger] it.seq()[j]) == y by {
                if y == *x {
                    assert(*it.seq()[i as int] == y);
                }
            }
            assert forall|y: T| #[trigger] b@.contains(y) implies s@.contains(y) by {
                let j = choose|j: int| 0 <= j < i + 1 && *(#[trigger] it.seq()[j]) == y;
                assert(it.seq().unref()[j] == y);
                assert(it.seq().unref().to_set().contains(y));
            }
        }
        i += 1;
    }
    proof {
        assert(b@.subset_of(s@));
        vstd::set_lib::lemma_subset_equality(b@, s@);
    }
    serialize_btree_set(&b, writer)
}

/// Deserializes a hash set: reads its length, then that many items, and inserts each in
/// turn.
pub fn deserialize_hash_set<T: OrderedKey + Hash + DeserializeRevisioned>(reader: &mut &[u8]) -> (res:
    Result<HashSet<T>, Error>)
    ensures
        match res {
            Ok(s) => decode_btree_set::<T>(old(reader)@) matches Ok((ss, n)) && ss == s@ && n
                <= old(reader)@.len() && final(reader)@ == old(reader)@.skip(n as int),
            Err(e) => decode_btree_set::<T>(old(reader)@) == Err::<(Set<T>, nat), ErrorKind>(e.kind()),
        },
{
    let ghost input = reader@;
    let len = match decode_len(reader) {
        Ok(len) => len,
        Err(e) => return Err(e),
    };
    let ghost k: nat = (input.len() - reader@.len()) as nat;
    let ghost body = reader@;
    assert(body == input.skip(k as int));
    let mut set: HashSet<T> = HashSet::new();
    let mut i: usize = 0;
    let ghost mut consumed: nat = 0;
    let ghost mut ts: Seq<T> = Seq::empty();
    assert(set@ == ts.to_set());
    while i < len
        invariant
            0 <= i <= len,
            input == old(reader)@,
            body == input.skip(k as int),
            k <= input.len(),
            spec_decode_len(input) == Ok::<(nat, nat), ErrorKind>((len as nat, k)),
            decode_each::<T>(body, i as nat) == Ok::<(Seq<T>, nat), ErrorKind>((ts, consumed)),
            set@ == ts.to_set(),
            consumed <= body.len(),
            reader@ == body.skip(consumed as int),
        decreases len - i,
    {
        let ghost before = reader@;
        let x = match T::deserialize_revisioned(reader) {
            Ok(x) => x,
            Err(e) => {
                proof {
                    lemma_decode_each_err::<T>(body, (i + 1) as nat, len as nat);
                }
                return Err(e);
            },
        };
        proof {
            T::lemma_ordered();
            let n = (before.len() - reader@.len()) as nat;
            assert(body.skip(consumed as int).skip(n as int) == body.skip((consumed + n) as int));
            ts.lemma_push_to_set_commute(x);
            ts = ts.push(x.model());
            consumed = consumed + n;
        }
        set.insert(x);
        i += 1;
    }
    proof {
        assert(input.skip(k as int).skip(consumed as int) == input.skip((k + consumed) as int));
    }
    Ok(set)
}

impl<T: OrderedKey + Hash> Revisioned for HashSet<T> {
    /// The items of the set.
    type Model = Set<T>;

    open spec fn model(&self) -> Set<T> {
        self@
    }

    open spec fn spec_revision() -> u16 {
        1
    }

    fn revision() -> (r: u16) {
        1
    }
}

impl<T: OrderedKey + Copy + Hash + SerializeRevisioned> SerializeRevisioned for HashSet<T> {
    /// The number of items, then each item, in increasing order.
    open spec fn spec_encode(m: Set<T>) -> Seq<u8> {
        encode_vec_generic::<T>(crate::implementations::ordered::sorted_keys(m))
    }

    fn serialize_revisioned(&self, writer: &mut Vec<u8>) -> (r: Result<(), Error>) {
        serialize_hash_set(self, writer)
    }
}

impl<T: OrderedKey + Hash + DeserializeRevisioned> DeserializeRevisioned for HashSet<T> {
    /// A length, then that many items, inserted in turn.
    open spec fn spec_decode(input: Seq<u8>) -> Result<(Set<T>, nat), ErrorKind> {
        decode_btree_set::<T>(input)
    }

    fn deserialize_revisioned(reader: &mut &[u8]) -> (res: Result<HashSet<T>, Error>) {
        deserialize_hash_set(reader)
    }
}

impl<T: OrderedKey + Copy + Hash + RevisionedRoundTrip> RevisionedRoundTrip for HashSet<T> {
    proof fn lemma_decode_encode(v: HashSet<T>, rest: Seq<u8>) {
        T::lemma_ordered();
        lemma_hash_set_finite(&v);
        lemma_sorted_keys(v@);
        let ks = crate::implementations::ordered::sorted_keys(v@);
        assert(models(ks) == ks);
        assert(ks.len() <= usize::MAX) by {
            assert(vstd::std_specs::hash::spec_hash_set_len(&v) == v@.len());
        }
        lemma_decode_encode_vec_generic::<T>(ks, rest);
        assert(ks.to_set() == v@);
    }
}

impl<T: OrderedKey + Hash + SkipRevisioned> SkipRevisioned for HashSet<T> {
    /// A length, then that many items.
    open spec fn spec_skip(input: Seq<u8>) -> Result<nat, ErrorKind> {
        skip_vec_generic::<T>(input)
    }

    fn skip_revisioned(reader: &mut &[u8]) -> (r: Result<(), Error>) {
        skip_vec_generic_exec::<T>(reader)
    }

    proof fn lemma_skip_decode(input: Seq<u8>) {
        lemma_skip_vec_generic::<T>(input);
    }
}

impl<T: OrderedKey + Copy + Hash + SerializeRevisioned> SerializeRevisionedVec for HashSet<T> {
    open spec fn spec_encode_vec(ms: Seq<Set<T>>) -> Seq<u8> {
        encode_vec_generic::<HashSet<T>>(ms)
    }

    fn serialize_revisioned_vec(v: &Vec<HashSet<T>>, writer: &mut Vec<u8>) -> (r: Result<(), Error>) {
        serialize_vec_generic(v, writer)
    }
}

impl<T: OrderedKey + Hash + DeserializeRevisioned> DeserializeRevisionedVec for HashSet<T> {
    open spec fn spec_decode_vec(input: Seq<u8>) -> Result<(Seq<Set<T>>, nat), ErrorKind> {
        decode_vec_generic::<HashSet<T>>(input)
    }

    fn deserialize_revisioned_vec(reader: &mut &[u8]) -> (res: Result<Vec<HashSet<T>>, Error>) {
        deserialize_vec_generic(reader)
    }
}

impl<K: OrderedKey + Copy + Hash + RevisionedRoundTrip, V: RevisionedRoundTrip> RevisionedRoundTripVec for HashMap<
    K,
    V,
> {
    proof fn lemma_decode_encode_vec(vs: Seq<HashMap<K, V>>, rest: Seq<u8>) {
        lemma_decode_encode_vec_generic::<HashMap<K, V>>(vs, rest);
    }
}

impl<T: OrderedKey + Copy + Hash + RevisionedRoundTrip> RevisionedRoundTripVec for HashSet<T> {
    proof fn lemma_decode_encode_vec(vs: Seq<HashSet<T>>, rest: Seq<u8>) {
        lemma_decode_encode_vec_generic::<HashSet<T>>(vs, rest);
    }
}

/// A hash map and an ordered map with the same entries are written with the same bytes,
/// and the same bytes read back as either give the same entries: the two share one
/// format.
pub proof fn lemma_hash_and_ordered_maps_agree<
    K: OrderedKey + Copy + Hash + SerializeRevisioned + DeserializeRevisioned,
    V: SerializeRevisioned + DeserializeRevisioned,
>(m: Map<K, V::Model>, input: Seq<u8>)
    ensures
        <HashMap<K, V> as SerializeRevisioned>::spec_encode(m) == <BTreeMap<
            K,
            V,
        > as SerializeRevisioned>::spec_encode(m),
        <HashMap<K, V> as DeserializeRevisioned>::spec_decode(input) == <BTreeMap<
            K,
            V,
        > as DeserializeRevisioned>::spec_decode(input),
{
}

/// A hash set and an ordered set with the same items are written with the same bytes,
/// and the same bytes read back as either give the same items.
pub proof fn lemma_hash_and_ordered_sets_agree<
    T: OrderedKey + Copy + Hash + SerializeRevisioned + DeserializeRevisioned,
>(s: Set<T>, input: Seq<u8>)
    ensures
        <HashSet<T> as SerializeRevisioned>::spec_encode(s) == <BTreeSet<
            T,
        > as SerializeRevisioned>::spec_encode(s),
        <HashSet<T> as DeserializeRevisioned>::spec_decode(input) == <BTreeSet<
            T,
        > as DeserializeRevisioned>::spec_decode(input),
{
}

} // verus!
