use vstd::prelude::*;

use crate::implementations::ordered::OrderedKey;
use crate::implementations::vecs::{
    decode_each, decode_len, decode_vec_generic, encode_vec_generic, lemma_decode_each_err,
    serialize_vec_generic, spec_decode_len,
};
use crate::implementations::skip::{lemma_skip_vec_generic, skip_vec_generic, skip_vec_generic_exec};
use crate::implementations::walk::{key_position, KeyPosition};
use crate::{
    models, DeserializeRevisioned, Error, ErrorKind, Revisioned, RevisionedRoundTrip,
    SerializeRevisioned, SkipRevisioned,
};

verus! {

/// Moves the item at `i` up towards the root while it ranks above its parent, as pushing
/// onto a max-heap does; an item that ranks the same as its parent stays below it.
pub open spec fn sift_up<T: OrderedKey>(a: Seq<T>, i: nat) -> Seq<T>
    decreases i,
{
    if i == 0 || i >= a.len() {
        a
    } else {
        let p = ((i - 1) / 2) as nat;
        if a[i as int].rank() <= a[p as int].rank() {
            a
        } else {
            sift_up(a.update(i as int, a[p as int]).update(p as int, a[i as int]), p)
        }
    }
}

/// The items of a heap after pushing `x`: appended, then moved up.
pub open spec fn heap_push<T: OrderedKey>(a: Seq<T>, x: T) -> Seq<T> {
    sift_up(a.push(x), a.len())
}

/// The items of a heap built by pushing `xs` one after the other onto an empty heap.
pub open spec fn push_all<T: OrderedKey>(xs: Seq<T>) -> Seq<T>
    decreases xs.len(),
{
    if xs.len() == 0 {
        Seq::empty()
    } else {
        heap_push(push_all(xs.drop_last()), xs.last())
    }
}

/// A max-heap of keys kept in a vector: each item ranks at most as high as its parent.
/// Serializing writes the items in the order the vector holds them, which is the order
/// iterating over the heap gives.
pub struct BinaryHeap<T> {
    items: Vec<T>,
}

impl<T: OrderedKey> BinaryHeap<T> {
    /// The items in the order the heap holds them.
    pub closed spec fn spec_items(&self) -> Seq<T> {
        self.items@
    }

    /// An empty heap.
    pub fn new() -> (r: BinaryHeap<T>)
        ensures
            r.spec_items() == Seq::<T>::empty(),
            is_heap(r.spec_items()),
    {
        BinaryHeap { items: Vec::new() }
    }

    /// The number of items.
    pub fn len(&self) -> (r: usize)
        ensures
            r == self.spec_items().len(),
    {
        self.items.len()
    }

    /// The items in the order the heap holds them.
    pub fn as_slice(&self) -> (r: &[T])
        ensures
            r@ == self.spec_items(),
    {
        self.items.as_slice()
    }

    /// Pushes `x`: appends it, then moves it up past every parent it ranks above.
    pub fn push(&mut self, x: T)
        ensures
            final(self).spec_items() == heap_push(old(self).spec_items(), x),
            is_heap(old(self).spec_items()) ==> is_heap(final(self).spec_items()),
    {
        proof {
            if is_heap(self.items@) {
                lemma_heap_push_heap(self.items@, x);
            }
        }
        let ghost target = heap_push(self.items@, x);
        let len = self.items.len();
        self.items.push(x);
        let mut i: usize = len;
        while i > 0
            invariant
                i < self.items@.len(),
                sift_up(self.items@, i as nat) == target,
                target == heap_push(old(self).spec_items(), x),
                is_heap(old(self).spec_items()) ==> is_heap(target),
            decreases i,
        {
            let p = (i - 1) / 2;
            match key_position(&self.items[i], &self.items[p]) {
                KeyPosition::After => {},
                _ => {
                    assert(sift_up(self.items@, i as nat) == self.items@);
                    return;
                },
            }
            let ghost before = self.items@;
            let child = self.items[i];
            let parent = self.items[p];
            self.items.set(i, parent);
            self.items.set(p, child);
            assert(self.items@ == before.update(i as int, before[p as int]).update(
                p as int,
                before[i as int],
            ));
            i = p;
        }
    }
}

impl<T: OrderedKey> Revisioned for BinaryHeap<T> {
    /// The items in the order the heap holds them.
    type Model = Seq<T>;

    open spec fn model(&self) -> Seq<T> {
        self.spec_items()
    }

    open spec fn spec_revision() -> u16 {
        1
    }

    fn revision() -> (r: u16) {
        1
    }
}

impl<T: OrderedKey + SerializeRevisioned> SerializeRevisioned for BinaryHeap<T> {
    /// The number of items, then each item in the order the heap holds them.
    open spec fn spec_encode(m: Seq<T>) -> Seq<u8> {
        encode_vec_generic::<T>(m)
    }

    fn serialize_revisioned(&self, writer: &mut Vec<u8>) -> (r: Result<(), Error>) {
        proof {
            T::lemma_ordered();
            assert(models(self.items@) == self.items@);
        }
        serialize_vec_generic(&self.items, writer)
    }
}

/// Decoding a heap: a length, then that many items, pushed one after the other.
pub open spec fn decode_heap<T: OrderedKey + DeserializeRevisioned>(input: Seq<u8>) -> Result<
    (Seq<T>, nat),
    ErrorKind,
> {
    match decode_vec_generic::<T>(input) {
        Ok((xs, n)) => Ok((push_all(xs), n)),
        Err(e) => Err(e),
    }
}

impl<T: OrderedKey + DeserializeRevisioned> DeserializeRevisioned for BinaryHeap<T> {
    /// A length, then that many items, pushed in turn.
    open spec fn spec_decode(input: Seq<u8>) -> Result<(Seq<T>, nat), ErrorKind> {
        decode_heap::<T>(input)
    }

    fn deserialize_revisioned(reader: &mut &[u8]) -> (res: Result<BinaryHeap<T>, Error>) {
        let ghost input = reader@;
        let len = match decode_len(reader) {
            Ok(len) => len,
            Err(e) => return Err(e),
        };
        let ghost k: nat = (input.len() - reader@.len()) as nat;
        let ghost body = reader@;
        assert(body == input.skip(k as int));
        let mut heap: BinaryHeap<T> = BinaryHeap::new();
        let mut i: usize = 0;
        let ghost mut consumed: nat = 0;
        let ghost mut xs: Seq<T> = Seq::empty();
        while i < len
            invariant
                0 <= i <= len,
                input == old(reader)@,
                body == input.skip(k as int),
                k <= input.len(),
                spec_decode_len(input) == Ok::<(nat, nat), ErrorKind>((len as nat, k)),
                decode_each::<T>(body, i as nat) == Ok::<(Seq<T>, nat), ErrorKind>((xs, consumed)),
                heap.spec_items() == push_all(xs),
                consumed <= body.len(),
                reader@ == body.skip(consumed as int),
            decreases len - i,
        {
            let ghost before = reader@;
            let x = match T::deserialize_revisioned(reader) {
                Ok(x) => x,
                Err(e) => {
                    proof {
                        lemma_decode_each_err::<T>(body, (i + 1) as nat, len as nat);
                    }
                    return Err(e);
                },
            };
            proof {
                T::lemma_ordered();
                let n = (before.len() - reader@.len()) as nat;
                assert(body.skip(consumed as int).skip(n as int) == body.skip((consumed + n) as int));
                let old_xs = xs;
                xs = xs.push(x.model());
                assert(xs.drop_last() == old_xs);
                consumed = consumed + n;
            }
            heap.push(x);
            i += 1;
        }
        proof {
            assert(input.skip(k as int).skip(consumed as int) == input.skip((k + consumed) as int));
        }
        Ok(heap)
    }
}

/// Whether each item of `a` ranks at most as high as its parent.
pub open spec fn is_heap<T: OrderedKey>(a: Seq<T>) -> bool {
    forall|i: int| 0 < i < a.len() ==> #[trigger] a[i].rank() <= a[(i - 1) / 2].rank()
}

/// Pushing the items of a heap one after the other, in the order it holds them, onto an
/// empty heap rebuilds it item for item: no item ranks above its parent, so none moves.
pub proof fn lemma_push_all_heap<T: OrderedKey>(a: Seq<T>)
    requires
        is_heap(a),
    ensures
        push_all(a) == a,
    decreases a.len(),
{
    if a.len() > 0 {
        let init = a.drop_last();
        assert(is_heap(init)) by {
            assert forall|i: int| 0 < i < init.len() implies #[trigger] init[i].rank() <= init[(i - 1) / 2].rank() by {
                assert(a[i].rank() <= a[(i - 1) / 2].rank());
            }
        }
        lemma_push_all_heap(init);
        assert(init.push(a.last()) == a);
        let n = (a.len() - 1) as nat;
        if n > 0 {
            assert(a[n as int].rank() <= a[(n - 1) / 2].rank());
        }
    }
}

/// Deserializing the bytes that serializing a heap writes gives back a heap holding the
/// same items in the same order, and takes exactly those bytes, whatever follows them.
pub proof fn lemma_heap_round_trip<T: OrderedKey + RevisionedRoundTrip>(h: BinaryHeap<T>, rest: Seq<u8>)
    requires
        is_heap(h.spec_items()),
        BinaryHeap::<T>::spec_encode(h.model()).len() <= usize::MAX,
    ensures
        BinaryHeap::<T>::spec_decode(BinaryHeap::<T>::spec_encode(h.model()) + rest) == Ok::<
            (Seq<T>, nat),
            ErrorKind,
        >((h.model(), BinaryHeap::<T>::spec_encode(h.model()).len())),
{
    T::lemma_ordered();
    let a = h.spec_items();
    assert(models(a) == a);
    assert(a.len() <= usize::MAX) by {
        assert(h.items@.len() == h.items.len());
    }
    crate::implementations::vecs::lemma_decode_encode_vec_generic::<T>(a, rest);
    lemma_push_all_heap(a);
}

/// Moving an item up swaps items and loses or adds none.
proof fn lemma_sift_up_items<T: OrderedKey>(a: Seq<T>, i: nat)
    ensures
        sift_up(a, i).to_multiset() == a.to_multiset(),
    decreases i,
{
    if i != 0 && i < a.len() {
        let p = ((i - 1) / 2) as nat;
        if a[i as int].rank() > a[p as int].rank() {
            let b1 = a.update(i as int, a[p as int]);
            let b = b1.update(p as int, a[i as int]);
            vstd::seq_lib::to_multiset_update(a, i as int, a[p as int]);
            vstd::seq_lib::to_multiset_update(b1, p as int, a[i as int]);
            assert(b1[p as int] == a[p as int]);
            assert(b.to_multiset() =~= a.to_multiset()) by {
                broadcast use {vstd::multiset::group_multiset_axioms, vstd::seq_lib::group_to_multiset_ensures};
                assert(a.to_multiset().count(a[i as int]) > 0);
                assert(a.to_multiset().insert(a[p as int]).remove(a[i as int]).insert(a[i as int]).count(a[p as int]) > 0);
            }
            lemma_sift_up_items(b, p);
        }
    }
}

/// Pushing items one after the other onto an empty heap keeps exactly those items.
pub proof fn lemma_push_all_items<T: OrderedKey>(xs: Seq<T>)
    ensures
        push_all(xs).to_multiset() == xs.to_multiset(),
    decreases xs.len(),
{
    broadcast use vstd::seq_lib::group_to_multiset_ensures;
    if xs.len() > 0 {
        let init = xs.drop_last();
        lemma_push_all_items(init);
        lemma_sift_up_items(push_all(init).push(xs.last()), push_all(init).len());
        assert(init.push(xs.last()) == xs);
    }
}

/// Deserializing the bytes that serializing any heap writes gives back a heap with the
/// same items, and takes exactly those bytes, whatever follows them.
pub proof fn lemma_heap_items_round_trip<T: OrderedKey + RevisionedRoundTrip>(h: BinaryHeap<T>, rest: Seq<u8>)
    requires
        BinaryHeap::<T>::spec_encode(h.model()).len() <= usize::MAX,
    ensures
        BinaryHeap::<T>::spec_decode(BinaryHeap::<T>::spec_encode(h.model()) + rest) matches Ok((m, n))
            && m.to_multiset() == h.model().to_multiset() && n == BinaryHeap::<T>::spec_encode(
            h.model(),
        ).len(),
{
    T::lemma_ordered();
    let a = h.spec_items();
    assert(models(a) == a);
    assert(a.len() <= usize::MAX) by {
        assert(h.items@.len() == h.items.len());
    }
    crate::implementations::vecs::lemma_decode_encode_vec_generic::<T>(a, rest);
    lemma_push_all_items(a);
}

impl<T: OrderedKey + SkipRevisioned> SkipRevisioned for BinaryHeap<T> {
    /// A length, then that many items.
    open spec fn spec_skip(input: Seq<u8>) -> Result<nat, ErrorKind> {
        skip_vec_generic::<T>(input)
    }

    fn skip_revisioned(reader: &mut &[u8]) -> (r: Result<(), Error>) {
        skip_vec_generic_exec::<T>(reader)
    }

    proof fn lemma_skip_decode(input: Seq<u8>) {
        lemma_skip_vec_generic::<T>(input);
    }
}

/// Whether `a` is a heap except that the item at `i` may rank above its parent, while
/// the children of `i` rank at most as high as the parent of `i`: the state of a heap
/// while an item moves up.
pub open spec fn heap_but<T: OrderedKey>(a: Seq<T>, i: int) -> bool {
    &&& forall|j: int| 0 < j < a.len() && j != i ==> #[trigger] a[j].rank() <= a[(j - 1) / 2].rank()
    &&& (0 < i < a.len() ==> forall|c: int|
        0 < c < a.len() && (c - 1) / 2 == i ==> #[trigger] a[c].rank() <= a[(i - 1) / 2].rank())
}

/// Swapping an item that ranks above its parent with the parent leaves only the parent's
/// place possibly out of order.
proof fn lemma_swap_up<T: OrderedKey>(a: Seq<T>, i: int)
    requires
        0 < i < a.len(),
        heap_but(a, i),
        a[i].rank() > a[(i - 1) / 2].rank(),
    ensures
        heap_but(a.update(i, a[(i - 1) / 2]).update((i - 1) / 2, a[i]), (i - 1) / 2),
{
    let p = (i - 1) / 2;
    let b = a.update(i, a[p]).update(p, a[i]);
    assert forall|j: int| 0 < j < b.len() && j != p implies #[trigger] b[j].rank() <= b[(j - 1) / 2].rank() by {
        let q = (j - 1) / 2;
        if j == i {
        } else if q == i {
            assert(a[j].rank() <= a[p].rank());
        } else if q == p {
            assert(a[j].rank() <= a[p].rank());
        } else {
            assert(b[j] == a[j]);
            assert(b[q] == a[q]);
        }
    }
    if p > 0 {
        let g = (p - 1) / 2;
        assert(a[p].rank() <= a[g].rank());
        assert forall|c: int| 0 < c < b.len() && (c - 1) / 2 == p implies #[trigger] b[c].rank() <= b[(p - 1) / 2].rank() by {
            if c != i {
                assert(a[c].rank() <= a[p].rank());
            }
        }
    }
}

/// Moving an item up from a state where only it may break the heap order gives a heap.
proof fn lemma_sift_up_heap<T: OrderedKey>(a: Seq<T>, i: nat)
    requires
        i < a.len(),
        heap_but(a, i as int),
    ensures
        is_heap(sift_up(a, i)),
    decreases i,
{
    if i == 0 {
        assert forall|j: int| 0 < j < a.len() implies #[trigger] a[j].rank() <= a[(j - 1) / 2].rank() by {
            assert(j != 0);
        }
    } else {
        let p = ((i - 1) / 2) as nat;
        if a[i as int].rank() <= a[p as int].rank() {
            assert forall|j: int| 0 < j < a.len() implies #[trigger] a[j].rank() <= a[(j - 1) / 2].rank() by {
                if j == i {
                }
            }
        } else {
            lemma_swap_up(a, i as int);
            lemma_sift_up_heap(a.update(i as int, a[p as int]).update(p as int, a[i as int]), p);
        }
    }
}

/// What deserializing a heap gives is in heap order.
pub proof fn lemma_decoded_heap_order<T: OrderedKey + DeserializeRevisioned>(input: Seq<u8>)
    ensures
        decode_heap::<T>(input) matches Ok((m, _)) ==> is_heap(m),
{
    if let Ok((xs, _)) = decode_vec_generic::<T>(input) {
        lemma_push_all_heap_order(xs);
    }
}

/// Pushing onto a heap gives a heap.
pub proof fn lemma_heap_push_heap<T: OrderedKey>(a: Seq<T>, x: T)
    requires
        is_heap(a),
    ensures
        is_heap(heap_push(a, x)),
{
    let b = a.push(x);
    assert forall|j: int| 0 < j < b.len() && j != a.len() implies #[trigger] b[j].rank() <= b[(j - 1) / 2].rank() by {
        assert(b[j] == a[j]);
        assert(b[(j - 1) / 2] == a[(j - 1) / 2]);
    }
    assert(heap_but(b, a.len() as int));
    lemma_sift_up_heap(b, a.len());
}

/// A heap built by pushing items one after the other onto an empty heap is a heap.
pub proof fn lemma_push_all_heap_order<T: OrderedKey>(xs: Seq<T>)
    ensures
        is_heap(push_all(xs)),
    decreases xs.len(),
{
    if xs.len() > 0 {
        lemma_push_all_heap_order(xs.drop_last());
        lemma_heap_push_heap(push_all(xs.drop_last()), xs.last());
    }
}

} // verus!
