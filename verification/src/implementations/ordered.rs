use vstd::prelude::*;
use vstd::laws_cmp::obeys_cmp;
use vstd::relations::{is_minimal, total_ordering};
use vstd::std_specs::cmp::OrdSpec;
use vstd::std_specs::btree::increasing_seq;

use crate::Revisioned;

verus! {

/// A key of an ordered collection: its order is the one vstd specifies for `Ord`, and
/// that order follows a rank in the integers, which no two keys share.
pub trait OrderedKey: Revisioned<Model = Self> + Ord + Copy + Sized {
    /// The place of the key in the order.
    spec fn rank(&self) -> int;

    /// The key type obeys vstd's laws of `Ord` and of hashing, a key comes before another exactly when
    /// its rank is smaller, compares equal to another exactly when they are the same key,
    /// keys of the same rank are equal, and a key is its own model.
    proof fn lemma_ordered()
        ensures
            forall|a: Self| #[trigger] a.model() == a,
            obeys_cmp::<Self>(),
            Self::obeys_cmp_spec(),
            vstd::std_specs::hash::obeys_key_model::<Self>(),
            forall|a: Self, b: Self| (#[trigger] a.cmp_spec(&b) is Less) <==> a.rank() < b.rank(),
            forall|a: Self, b: Self| (#[trigger] a.cmp_spec(&b) is Equal) <==> a == b,
            forall|a: Self, b: Self| #[trigger] a.rank() == #[trigger] b.rank() ==> a == b,
    ;
}

impl OrderedKey for u8 {
    open spec fn rank(&self) -> int {
        *self as int
    }

    proof fn lemma_ordered() {
        broadcast use {vstd::laws_cmp::group_laws_cmp, vstd::std_specs::hash::group_hash_axioms};
    }
}

impl OrderedKey for u16 {
    open spec fn rank(&self) -> int {
        *self as int
    }

    proof fn lemma_ordered() {
        broadcast use {vstd::laws_cmp::group_laws_cmp, vstd::std_specs::hash::group_hash_axioms};
    }
}

impl OrderedKey for u32 {
    open spec fn rank(&self) -> int {
        *self as int
    }

    proof fn lemma_ordered() {
        broadcast use {vstd::laws_cmp::group_laws_cmp, vstd::std_specs::hash::group_hash_axioms};
    }
}

impl OrderedKey for u64 {
    open spec fn rank(&self) -> int {
        *self as int
    }

    proof fn lemma_ordered() {
        broadcast use {vstd::laws_cmp::group_laws_cmp, vstd::std_specs::hash::group_hash_axioms};
    }
}

impl OrderedKey for u128 {
    open spec fn rank(&self) -> int {
        *self as int
    }

    proof fn lemma_ordered() {
        broadcast use {vstd::laws_cmp::group_laws_cmp, vstd::std_specs::hash::group_hash_axioms};
    }
}

impl OrderedKey for usize {
    open spec fn rank(&self) -> int {
        *self as int
    }

    proof fn lemma_ordered() {
        broadcast use {vstd::laws_cmp::group_laws_cmp, vstd::std_specs::hash::group_hash_axioms};
    }
}

impl OrderedKey for i8 {
    open spec fn rank(&self) -> int {
        *self as int
    }

    proof fn lemma_ordered() {
        broadcast use {vstd::laws_cmp::group_laws_cmp, vstd::std_specs::hash::group_hash_axioms};
    }
}

impl OrderedKey for i16 {
    open spec fn rank(&self) -> int {
        *self as int
    }

    proof fn lemma_ordered() {
        broadcast use {vstd::laws_cmp::group_laws_cmp, vstd::std_specs::hash::group_hash_axioms};
    }
}

impl OrderedKey for i32 {
    open spec fn rank(&self) -> int {
        *self as int
    }

    proof fn lemma_ordered() {
        broadcast use {vstd::laws_cmp::group_laws_cmp, vstd::std_specs::hash::group_hash_axioms};
    }
}

impl OrderedKey for i64 {
    open spec fn rank(&self) -> int {
        *self as int
    }

    proof fn lemma_ordered() {
        broadcast use {vstd::laws_cmp::group_laws_cmp, vstd::std_specs::hash::group_hash_axioms};
    }
}

impl OrderedKey for i128 {
    open spec fn rank(&self) -> int {
        *self as int
    }

    proof fn lemma_ordered() {
        broadcast use {vstd::laws_cmp::group_laws_cmp, vstd::std_specs::hash::group_hash_axioms};
    }
}

impl OrderedKey for isize {
    open spec fn rank(&self) -> int {
        *self as int
    }

    proof fn lemma_ordered() {
        broadcast use {vstd::laws_cmp::group_laws_cmp, vstd::std_specs::hash::group_hash_axioms};
    }
}

/// The order of keys by rank, as a relation.
pub open spec fn key_leq<K: OrderedKey>() -> spec_fn(K, K) -> bool {
    |a: K, b: K| a.rank() <= b.rank()
}

/// Ordering keys by rank is a total order.
pub proof fn lemma_key_leq_total<K: OrderedKey>()
    ensures
        total_ordering(key_leq::<K>()),
{
    K::lemma_ordered();
}

/// Whether the ranks of the keys of `t` strictly increase.
pub open spec fn rank_increasing<K: OrderedKey>(t: Seq<K>) -> bool {
    forall|i: int, j: int| 0 <= i < j < t.len() ==> #[trigger] t[i].rank() < #[trigger] t[j].rank()
}

/// A sequence of keys that vstd calls increasing has strictly increasing ranks.
pub proof fn lemma_increasing_rank<K: OrderedKey>(ks: Seq<K>)
    requires
        increasing_seq(ks),
    ensures
        rank_increasing(ks),
{
    broadcast use vstd::std_specs::btree::group_btree_axioms;
    K::lemma_ordered();
    assert forall|a: int, b: int| 0 <= a < b < ks.len() implies #[trigger] ks[a].rank() < #[trigger] ks[b].rank() by {
        assert(ks[a].cmp_spec(&ks[b]) is Less);
    }
}

/// A sequence of key references that vstd calls increasing has keys of strictly
/// increasing ranks.
pub proof fn lemma_increasing_rank_refs<K: OrderedKey>(ks: Seq<&K>)
    requires
        increasing_seq(ks),
    ensures
        rank_increasing(ks.map_values(|k: &K| *k)),
{
    broadcast use {vstd::laws_cmp::group_laws_cmp, vstd::std_specs::btree::group_btree_axioms};
    K::lemma_ordered();
    assert(obeys_cmp::<&K>());
    let t = ks.map_values(|k: &K| *k);
    assert forall|a: int, b: int| 0 <= a < b < t.len() implies #[trigger] t[a].rank() < #[trigger] t[b].rank() by {
        assert(OrdSpec::cmp_spec(&ks[a], &ks[b]) is Less);
        assert(t[a].cmp_spec(&t[b]) is Less);
    }
}

/// The keys of a finite set in increasing order.
pub open spec fn sorted_keys<K: OrderedKey>(s: Set<K>) -> Seq<K>
    decreases s.len(),
    when s.finite()
{
    if s.len() == 0 {
        Seq::empty()
    } else {
        let k = s.find_unique_minimal(key_leq::<K>());
        proof {
            lemma_key_leq_total::<K>();
            s.find_unique_minimal_ensures(key_leq::<K>());
        }
        seq![k] + sorted_keys(s.remove(k))
    }
}

/// The keys of a finite set in increasing order are exactly its keys, each once.
pub proof fn lemma_sorted_keys<K: OrderedKey>(s: Set<K>)
    requires
        s.finite(),
    ensures
        rank_increasing(sorted_keys(s)),
        forall|x: K| sorted_keys(s).contains(x) <==> s.contains(x),
        sorted_keys(s).len() == s.len(),
    decreases s.len(),
{
    if s.len() > 0 {
        let k = s.find_unique_minimal(key_leq::<K>());
        lemma_key_leq_total::<K>();
        s.find_unique_minimal_ensures(key_leq::<K>());
        let rest = s.remove(k);
        lemma_sorted_keys(rest);
        let t = sorted_keys(s);
        assert(t == seq![k] + sorted_keys(rest));
        assert forall|x: K| t.contains(x) <==> s.contains(x) by {
            if t.contains(x) {
                let i = choose|i: int| 0 <= i < t.len() && t[i] == x;
                if i > 0 {
                    assert(sorted_keys(rest)[i - 1] == x);
                }
            }
            if s.contains(x) && x != k {
                assert(rest.contains(x));
                let i = choose|i: int| 0 <= i < sorted_keys(rest).len() && sorted_keys(rest)[i] == x;
                assert(t[i + 1] == x);
            }
            if x == k {
                assert(t[0] == x);
            }
        }
        assert forall|i: int, j: int| 0 <= i < j < t.len() implies #[trigger] t[i].rank() < #[trigger] t[j].rank() by {
            if i == 0 {
                let y = t[j];
                assert(sorted_keys(rest)[j - 1] == y);
                assert(sorted_keys(rest).contains(y));
                assert(rest.contains(y));
                assert(y != k);
                assert(key_leq::<K>()(y, k) ==> key_leq::<K>()(k, y));
                K::lemma_ordered();
            } else {
                assert(t[i] == sorted_keys(rest)[i - 1]);
                assert(t[j] == sorted_keys(rest)[j - 1]);
            }
        }
    }
}

/// A sequence of keys in strictly increasing order that holds exactly the keys of a
/// finite set is the set's keys in increasing order.
pub proof fn lemma_sorted_keys_unique<K: OrderedKey>(s: Set<K>, t: Seq<K>)
    requires
        s.finite(),
        rank_increasing(t),
        forall|x: K| t.contains(x) <==> s.contains(x),
    ensures
        t == sorted_keys(s),
    decreases s.len(),
{
    lemma_sorted_keys(s);
    K::lemma_ordered();
    if s.len() == 0 {
        if t.len() > 0 {
            assert(t.contains(t[0]));
        }
    } else {
        let k = s.find_unique_minimal(key_leq::<K>());
        lemma_key_leq_total::<K>();
        s.find_unique_minimal_ensures(key_leq::<K>());
        assert(t.len() > 0) by {
            assert(s.contains(k));
        }
        assert(t.contains(t[0]));
        assert(is_minimal(key_leq::<K>(), t[0], s)) by {
            assert forall|x: K| s.contains(x) && #[trigger] key_leq::<K>()(x, t[0]) implies key_leq::<K>()(t[0], x) by {
                assert(t.contains(x));
                let j = choose|j: int| 0 <= j < t.len() && t[j] == x;
                if j > 0 {
                    assert(t[0].rank() < t[j].rank());
                }
            }
        }
        assert(t[0] == k);
        let rest = s.remove(k);
        let tail = t.drop_first();
        assert forall|x: K| tail.contains(x) <==> rest.contains(x) by {
            if tail.contains(x) {
                let j = choose|j: int| 0 <= j < tail.len() && tail[j] == x;
                assert(t[j + 1] == x);
                assert(t[0].rank() < t[j + 1].rank());
                assert(t.contains(x));
            }
            if rest.contains(x) {
                assert(s.contains(x));
                assert(t.contains(x));
                let j = choose|j: int| 0 <= j < t.len() && t[j] == x;
                assert(j != 0);
                assert(tail[j - 1] == x);
            }
        }
        assert(rank_increasing(tail)) by {
            assert forall|i: int, j: int| 0 <= i < j < tail.len() implies #[trigger] tail[i].rank() < #[trigger] tail[j].rank() by {
                assert(tail[i] == t[i + 1]);
                assert(tail[j] == t[j + 1]);
            }
        }
        lemma_sorted_keys_unique(rest, tail);
        assert(t == seq![k] + tail);
    }
}

} // verus!
