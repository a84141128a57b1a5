use vstd::prelude::*;
use std::collections::{BTreeMap, BTreeSet, HashMap, HashSet};
use std::hash::Hash;
use std::cmp::Ordering;
use std::marker::PhantomData;
use std::ops::Range;
use std::time::Duration;

use crate::implementations::ordered::OrderedKey;
use crate::implementations::primitives::read_buffer;
use crate::implementations::vecs::{decode_len, decode_vec_generic, encode_vec_generic, spec_decode_len, spec_encode_len};
use crate::{
    decodes_as, skips_as, DeserializeRevisioned, DeserializeRevisionedVec, Error, ErrorKind,
    SerializeRevisioned, SerializeRevisionedVec, SkipRevisioned,
};

verus! {

/// How a `Vec` of values of this type is laid out: in a bulk form of its own, or as its
/// length followed by each element encoded alone, which a walker can step through.
pub trait VecLayout: SerializeRevisionedVec + DeserializeRevisionedVec {
    /// Whether a `Vec` of this type uses a bulk layout of its own.
    spec fn spec_bulk() -> bool;

    /// Whether a `Vec` of this type uses a bulk layout of its own.
    fn uses_bulk_encoding() -> (r: bool)
        ensures
            r == Self::spec_bulk(),
    ;

    /// Where the layout is not bulk, a vector is its length followed by each element.
    proof fn lemma_element_layout(ms: Seq<Self::Model>, input: Seq<u8>)
        ensures
            !Self::spec_bulk() ==> Self::spec_encode_vec(ms) == encode_vec_generic::<Self>(ms)
                && Self::spec_decode_vec(input) == decode_vec_generic::<Self>(input),
    ;
}

/// Whether `Vec<T>` uses a bulk layout for `T`, so that it cannot be walked element by
/// element.
pub fn vec_uses_bulk_encoding<T: VecLayout>() -> (r: bool)
    ensures
        r == T::spec_bulk(),
{
    T::uses_bulk_encoding()
}

impl VecLayout for bool {
    open spec fn spec_bulk() -> bool {
        true
    }

    fn uses_bulk_encoding() -> (r: bool) {
        true
    }

    proof fn lemma_element_layout(ms: Seq<Self::Model>, input: Seq<u8>) {
    }
}

impl VecLayout for u8 {
    open spec fn spec_bulk() -> bool {
        true
    }

    fn uses_bulk_encoding() -> (r: bool) {
        true
    }

    proof fn lemma_element_layout(ms: Seq<Self::Model>, input: Seq<u8>) {
    }
}

impl VecLayout for i8 {
    open spec fn spec_bulk() -> bool {
        true
    }

    fn uses_bulk_encoding() -> (r: bool) {
        true
    }

    proof fn lemma_element_layout(ms: Seq<Self::Model>, input: Seq<u8>) {
    }
}

impl VecLayout for u16 {
    open spec fn spec_bulk() -> bool {
        true
    }

    fn uses_bulk_encoding() -> (r: bool) {
        true
    }

    proof fn lemma_element_layout(ms: Seq<Self::Model>, input: Seq<u8>) {
    }
}

impl VecLayout for i16 {
    open spec fn spec_bulk() -> bool {
        true
    }

    fn uses_bulk_encoding() -> (r: bool) {
        true
    }

    proof fn lemma_element_layout(ms: Seq<Self::Model>, input: Seq<u8>) {
    }
}

impl VecLayout for u32 {
    open spec fn spec_bulk() -> bool {
        true
    }

    fn uses_bulk_encoding() -> (r: bool) {
        true
    }

    proof fn lemma_element_layout(ms: Seq<Self::Model>, input: Seq<u8>) {
    }
}

impl VecLayout for i32 {
    open spec fn spec_bulk() -> bool {
        true
    }

    fn uses_bulk_encoding() -> (r: bool) {
        true
    }

    proof fn lemma_element_layout(ms: Seq<Self::Model>, input: Seq<u8>) {
    }
}

impl VecLayout for u64 {
    open spec fn spec_bulk() -> bool {
        true
    }

    fn uses_bulk_encoding() -> (r: bool) {
        true
    }

    proof fn lemma_element_layout(ms: Seq<Self::Model>, input: Seq<u8>) {
    }
}

impl VecLayout for i64 {
    open spec fn spec_bulk() -> bool {
        true
    }

    fn uses_bulk_encoding() -> (r: bool) {
        true
    }

    proof fn lemma_element_layout(ms: Seq<Self::Model>, input: Seq<u8>) {
    }
}

impl VecLayout for u128 {
    open spec fn spec_bulk() -> bool {
        true
    }

    fn uses_bulk_encoding() -> (r: bool) {
        true
    }

    proof fn lemma_element_layout(ms: Seq<Self::Model>, input: Seq<u8>) {
    }
}

impl VecLayout for i128 {
    open spec fn spec_bulk() -> bool {
        true
    }

    fn uses_bulk_encoding() -> (r: bool) {
        true
    }

    proof fn lemma_element_layout(ms: Seq<Self::Model>, input: Seq<u8>) {
    }
}

impl VecLayout for usize {
    open spec fn spec_bulk() -> bool {
        false
    }

    fn uses_bulk_encoding() -> (r: bool) {
        false
    }

    proof fn lemma_element_layout(ms: Seq<Self::Model>, input: Seq<u8>) {
    }
}

impl VecLayout for isize {
    open spec fn spec_bulk() -> bool {
        false
    }

    fn uses_bulk_encoding() -> (r: bool) {
        false
    }

    proof fn lemma_element_layout(ms: Seq<Self::Model>, input: Seq<u8>) {
    }
}

impl VecLayout for char {
    open spec fn spec_bulk() -> bool {
        false
    }

    fn uses_bulk_encoding() -> (r: bool) {
        false
    }

    proof fn lemma_element_layout(ms: Seq<Self::Model>, input: Seq<u8>) {
    }
}

impl VecLayout for String {
    open spec fn spec_bulk() -> bool {
        false
    }

    fn uses_bulk_encoding() -> (r: bool) {
        false
    }

    proof fn lemma_element_layout(ms: Seq<Self::Model>, input: Seq<u8>) {
    }
}

impl VecLayout for Duration {
    open spec fn spec_bulk() -> bool {
        false
    }

    fn uses_bulk_encoding() -> (r: bool) {
        false
    }

    proof fn lemma_element_layout(ms: Seq<Self::Model>, input: Seq<u8>) {
    }
}

impl<T: SerializeRevisionedVec + DeserializeRevisionedVec> VecLayout for Vec<T> {
    open spec fn spec_bulk() -> bool {
        false
    }

    fn uses_bulk_encoding() -> (r: bool) {
        false
    }

    proof fn lemma_element_layout(ms: Seq<Self::Model>, input: Seq<u8>) {
    }
}

impl<T: SerializeRevisioned + DeserializeRevisioned> VecLayout for Option<T> {
    open spec fn spec_bulk() -> bool {
        false
    }

    fn uses_bulk_encoding() -> (r: bool) {
        false
    }

    proof fn lemma_element_layout(ms: Seq<Self::Model>, input: Seq<u8>) {
    }
}

impl<A: SerializeRevisioned + DeserializeRevisioned, B: SerializeRevisioned + DeserializeRevisioned> VecLayout for (A, B) {
    open spec fn spec_bulk() -> bool {
        false
    }

    fn uses_bulk_encoding() -> (r: bool) {
        false
    }

    proof fn lemma_element_layout(ms: Seq<Self::Model>, input: Seq<u8>) {
    }
}

impl<T: SerializeRevisioned + DeserializeRevisioned> VecLayout for Range<T> {
    open spec fn spec_bulk() -> bool {
        false
    }

    fn uses_bulk_encoding() -> (r: bool) {
        false
    }

    proof fn lemma_element_layout(ms: Seq<Self::Model>, input: Seq<u8>) {
    }
}

impl<K: OrderedKey + SerializeRevisioned + DeserializeRevisioned, V: SerializeRevisioned + DeserializeRevisioned> VecLayout for BTreeMap<K, V> {
    open spec fn spec_bulk() -> bool {
        false
    }

    fn uses_bulk_encoding() -> (r: bool) {
        false
    }

    proof fn lemma_element_layout(ms: Seq<Self::Model>, input: Seq<u8>) {
    }
}

impl<T: OrderedKey + SerializeRevisioned + DeserializeRevisioned> VecLayout for BTreeSet<T> {
    open spec fn spec_bulk() -> bool {
        false
    }

    fn uses_bulk_encoding() -> (r: bool) {
        false
    }

    proof fn lemma_element_layout(ms: Seq<Self::Model>, input: Seq<u8>) {
    }
}

/// Whether starting a walk over a length-prefixed run of items in `before` gave `r`
/// with `left` items to visit, leaving `after`: the length is read and nothing more.
pub open spec fn opens_run(before: Seq<u8>, r: Result<nat, ErrorKind>, after: Seq<u8>) -> bool {
    match r {
        Ok(left) => spec_decode_len(before) matches Ok((len, n)) && left == len && n
            <= before.len() && after == before.skip(n as int),
        Err(e) => spec_decode_len(before) == Err::<(nat, nat), ErrorKind>(e),
    }
}

/// Reads the length of a run of items.
fn open_run(reader: &mut &[u8]) -> (r: Result<usize, Error>)
    ensures
        opens_run(
            old(reader)@,
            match r {
                Ok(l) => Ok(l as nat),
                Err(e) => Err(e.kind()),
            },
            final(reader)@,
        ),
{
    decode_len(reader)
}

/// A walk over the items of an encoded sequence, one at a time: it holds how many items
/// are left, and each step reads or skips the next one from the reader it is given.
pub struct SeqWalker<T> {
    left: usize,
    marker: PhantomData<T>,
}

impl<T> SeqWalker<T> {
    /// The number of items not yet visited.
    pub closed spec fn spec_left(&self) -> nat {
        self.left as nat
    }

    /// Starts a walk over a length-prefixed sequence: reads the length.
    pub fn start(reader: &mut &[u8]) -> (r: Result<SeqWalker<T>, Error>)
        ensures
            opens_run(
                old(reader)@,
                match r {
                    Ok(w) => Ok(w.spec_left()),
                    Err(e) => Err(e.kind()),
                },
                final(reader)@,
            ),
    {
        match open_run(reader) {
            Ok(left) => Ok(SeqWalker { left, marker: PhantomData }),
            Err(e) => Err(e),
        }
    }

    /// The number of items not yet visited.
    pub fn remaining(&self) -> (r: usize)
        ensures
            r == self.spec_left(),
    {
        self.left
    }
}

impl<T: DeserializeRevisioned> SeqWalker<T> {
    /// Decodes the next item, or gives `None` when every item has been visited.
    pub fn decode_next(&mut self, reader: &mut &[u8]) -> (r: Option<Result<T, Error>>)
        ensures
            old(self).spec_left() == 0 ==> r is None && final(reader)@ == old(reader)@
                && final(self).spec_left() == 0,
            old(self).spec_left() > 0 ==> final(self).spec_left() == old(self).spec_left() - 1,
            old(self).spec_left() > 0 ==> (r matches Some(res) && decodes_as::<T>(
                T::spec_decode(old(reader)@),
                res,
                old(reader)@,
                final(reader)@,
            )),
    {
        if self.left == 0 {
            return None;
        }
        self.left = self.left - 1;
        Some(T::deserialize_revisioned(reader))
    }
}

impl<T: SkipRevisioned> SeqWalker<T> {
    /// Skips the next item, or gives `None` when every item has been visited.
    pub fn skip_next(&mut self, reader: &mut &[u8]) -> (r: Option<Result<(), Error>>)
        ensures
            old(self).spec_left() == 0 ==> r is None && final(reader)@ == old(reader)@
                && final(self).spec_left() == 0,
            old(self).spec_left() > 0 ==> final(self).spec_left() == old(self).spec_left() - 1,
            old(self).spec_left() > 0 ==> (r matches Some(res) && skips_as(
                T::spec_skip(old(reader)@),
                res,
                old(reader)@,
                final(reader)@,
            )),
    {
        if self.left == 0 {
            return None;
        }
        self.left = self.left - 1;
        Some(T::skip_revisioned(reader))
    }
}

/// A value at the front of the reader, to be decoded, skipped or read as raw bytes.
pub struct LeafWalker<T> {
    marker: PhantomData<T>,
}

impl<T> LeafWalker<T> {
    /// A walker over the value at the front of the reader.
    pub fn new() -> (r: LeafWalker<T>) {
        LeafWalker { marker: PhantomData }
    }
}

impl<T: DeserializeRevisioned> LeafWalker<T> {
    /// Decodes the value.
    pub fn decode(self, reader: &mut &[u8]) -> (r: Result<T, Error>)
        ensures
            decodes_as::<T>(T::spec_decode(old(reader)@), r, old(reader)@, final(reader)@),
    {
        T::deserialize_revisioned(reader)
    }
}

impl<T: SkipRevisioned> LeafWalker<T> {
    /// Skips the value.
    pub fn skip(self, reader: &mut &[u8]) -> (r: Result<(), Error>)
        ensures
            skips_as(T::spec_skip(old(reader)@), r, old(reader)@, final(reader)@),
    {
        T::skip_revisioned(reader)
    }
}

/// A type whose encoding is exactly a length followed by that many raw bytes.
pub trait LengthPrefixedBytes: SerializeRevisioned {
    /// The raw bytes that the encoding of a value with model `m` carries.
    spec fn spec_bytes(m: Self::Model) -> Seq<u8>;

    /// The encoding is the length of the raw bytes, then the bytes.
    proof fn lemma_length_prefixed(m: Self::Model)
        ensures
            Self::spec_encode(m) == spec_encode_len(Self::spec_bytes(m).len()) + Self::spec_bytes(m),
    ;
}

impl LengthPrefixedBytes for String {
    /// The UTF-8 bytes of the string.
    open spec fn spec_bytes(m: Seq<char>) -> Seq<u8> {
        vstd::utf8::encode_utf8(m)
    }

    proof fn lemma_length_prefixed(m: Seq<char>) {
    }
}

impl LengthPrefixedBytes for std::sync::Arc<str> {
    /// The UTF-8 bytes of the string.
    open spec fn spec_bytes(m: Seq<char>) -> Seq<u8> {
        vstd::utf8::encode_utf8(m)
    }

    proof fn lemma_length_prefixed(m: Seq<char>) {
    }
}

impl LengthPrefixedBytes for Vec<u8> {
    /// The bytes themselves.
    open spec fn spec_bytes(m: Seq<u8>) -> Seq<u8> {
        m
    }

    proof fn lemma_length_prefixed(m: Seq<u8>) {
    }
}

/// Reading a length-prefixed run of raw bytes: how many bytes the length takes, and
/// the bytes.
pub open spec fn read_prefixed(input: Seq<u8>) -> Result<(Seq<u8>, nat), ErrorKind> {
    match spec_decode_len(input) {
        Err(e) => Err(e),
        Ok((len, k)) => if input.len() - k < len {
            Err(ErrorKind::Io)
        } else {
            Ok((input.skip(k as int).take(len as int), k + len))
        },
    }
}

/// Reading the raw bytes at the front of what serializing a length-prefixed value writes
/// gives the bytes the value carries, and takes exactly its encoding, whatever follows.
pub proof fn lemma_read_prefixed_encoded<T: LengthPrefixedBytes>(m: T::Model, rest: Seq<u8>)
    requires
        T::spec_bytes(m).len() <= usize::MAX,
    ensures
        read_prefixed(T::spec_encode(m) + rest) == Ok::<(Seq<u8>, nat), ErrorKind>(
            (T::spec_bytes(m), T::spec_encode(m).len()),
        ),
{
    T::lemma_length_prefixed(m);
    let bytes = T::spec_bytes(m);
    let l = spec_encode_len(bytes.len());
    assert(l + bytes + rest == l + (bytes + rest));
    crate::implementations::vecs::lemma_decode_encode_len(bytes.len(), bytes + rest);
    assert((l + (bytes + rest)).skip(l.len() as int) == bytes + rest);
    assert((bytes + rest).take(bytes.len() as int) == bytes);
}

impl<T: LengthPrefixedBytes> LeafWalker<T> {
    /// The raw bytes of the value, borrowed from the reader without decoding them.
    pub fn with_bytes<'a>(self, reader: &mut &'a [u8]) -> (r: Result<&'a [u8], Error>)
        ensures
            match r {
                Ok(b) => read_prefixed(old(reader)@) matches Ok((bytes, n)) && b@ == bytes
                    && n <= old(reader)@.len() && final(reader)@ == old(reader)@.skip(n as int),
                Err(e) => read_prefixed(old(reader)@) == Err::<(Seq<u8>, nat), ErrorKind>(e.kind()),
            },
    {
        read_prefixed_exec(reader)
    }
}

/// Starting a walk over an encoded value of this type.
pub trait WalkRevisioned: Sized {
    /// What walks the value.
    type Walker;

    /// Whether starting a walk over `before` may give `r`, leaving `after`.
    spec fn walks_as(before: Seq<u8>, r: Result<Self::Walker, Error>, after: Seq<u8>) -> bool;

    /// Starts a walk over the value at the front of `reader`.
    fn walk_revisioned(reader: &mut &[u8]) -> (r: Result<Self::Walker, Error>)
        ensures
            Self::walks_as(old(reader)@, r, final(reader)@),
    ;
}

impl<T: VecLayout> WalkRevisioned for Vec<T> {
    type Walker = SeqWalker<T>;

    /// A vector whose element type has a bulk layout is refused without reading anything;
    /// any other is walked element by element once its length is read.
    open spec fn walks_as(before: Seq<u8>, r: Result<SeqWalker<T>, Error>, after: Seq<u8>) -> bool {
        if T::spec_bulk() {
            r matches Err(e) && e.kind() == ErrorKind::Deserialize && after == before
        } else {
            opens_run(
                before,
                match r {
                    Ok(w) => Ok(w.spec_left()),
                    Err(e) => Err(e.kind()),
                },
                after,
            )
        }
    }

    fn walk_revisioned(reader: &mut &[u8]) -> (r: Result<SeqWalker<T>, Error>) {
        if vec_uses_bulk_encoding::<T>() {
            return Err(
                Error::Deserialize(
                    String::from_str(
                        "Vec<T>: cannot walk a Vec whose element type uses a bulk layout; use DeserializeRevisioned or SkipRevisioned instead.",
                    ),
                ),
            );
        }
        SeqWalker::start(reader)
    }
}

impl<T: OrderedKey + DeserializeRevisioned> WalkRevisioned for BTreeSet<T> {
    type Walker = SeqWalker<T>;

    /// The length is read; the items are walked one at a time.
    open spec fn walks_as(before: Seq<u8>, r: Result<SeqWalker<T>, Error>, after: Seq<u8>) -> bool {
        opens_run(
            before,
            match r {
                Ok(w) => Ok(w.spec_left()),
                Err(e) => Err(e.kind()),
            },
            after,
        )
    }

    fn walk_revisioned(reader: &mut &[u8]) -> (r: Result<SeqWalker<T>, Error>) {
        SeqWalker::start(reader)
    }
}

/// A walk over the entries of an encoded map, one at a time: it holds how many entries
/// are left, and each entry's key and value are read or skipped from the reader it is
/// given.
pub struct MapWalker<K, V> {
    left: usize,
    marker: PhantomData<(K, V)>,
}

/// One entry of a map walk: its key comes first, then its value.
pub struct MapEntry<K, V> {
    key_read: bool,
    marker: PhantomData<(K, V)>,
}

impl<K, V> MapWalker<K, V> {
    /// The number of entries not yet visited.
    pub closed spec fn spec_left(&self) -> nat {
        self.left as nat
    }

    /// Starts a walk over an encoded map: reads the number of entries.
    pub fn start(reader: &mut &[u8]) -> (r: Result<MapWalker<K, V>, Error>)
        ensures
            opens_run(
                old(reader)@,
                match r {
                    Ok(w) => Ok(w.spec_left()),
                    Err(e) => Err(e.kind()),
                },
                final(reader)@,
            ),
    {
        match open_run(reader) {
            Ok(left) => Ok(MapWalker { left, marker: PhantomData }),
            Err(e) => Err(e),
        }
    }

    /// The number of entries not yet visited.
    pub fn remaining(&self) -> (r: usize)
        ensures
            r == self.spec_left(),
    {
        self.left
    }

    /// Moves on to the next entry, whose key is at the front of the reader, or gives
    /// `None` when every entry has been visited.
    pub fn next_entry(&mut self) -> (r: Option<MapEntry<K, V>>)
        ensures
            old(self).spec_left() == 0 ==> r is None && final(self).spec_left() == 0,
            old(self).spec_left() > 0 ==> final(self).spec_left() == old(self).spec_left() - 1,
            old(self).spec_left() > 0 ==> (r matches Some(e) && !e.spec_key_read()),
    {
        if self.left == 0 {
            return None;
        }
        self.left = self.left - 1;
        Some(MapEntry { key_read: false, marker: PhantomData })
    }
}

impl<K, V> MapEntry<K, V> {
    /// Whether the key has been read or skipped, so that the value is next.
    pub closed spec fn spec_key_read(&self) -> bool {
        self.key_read
    }
}

impl<K: DeserializeRevisioned, V> MapEntry<K, V> {
    /// Decodes the key.
    pub fn decode_key(&mut self, reader: &mut &[u8]) -> (r: Result<K, Error>)
        requires
            !old(self).spec_key_read(),
        ensures
            final(self).spec_key_read(),
            decodes_as::<K>(K::spec_decode(old(reader)@), r, old(reader)@, final(reader)@),
    {
        self.key_read = true;
        K::deserialize_revisioned(reader)
    }
}

impl<K: SkipRevisioned, V> MapEntry<K, V> {
    /// Skips the key.
    pub fn skip_key(&mut self, reader: &mut &[u8]) -> (r: Result<(), Error>)
        requires
            !old(self).spec_key_read(),
        ensures
            final(self).spec_key_read(),
            skips_as(K::spec_skip(old(reader)@), r, old(reader)@, final(reader)@),
    {
        self.key_read = true;
        K::skip_revisioned(reader)
    }
}

impl<K, V: DeserializeRevisioned> MapEntry<K, V> {
    /// Decodes the value, once the key has been read or skipped.
    pub fn decode_value(self, reader: &mut &[u8]) -> (r: Result<V, Error>)
        requires
            self.spec_key_read(),
        ensures
            decodes_as::<V>(V::spec_decode(old(reader)@), r, old(reader)@, final(reader)@),
    {
        V::deserialize_revisioned(reader)
    }
}

impl<K, V: SkipRevisioned> MapEntry<K, V> {
    /// Skips the value, once the key has been read or skipped.
    pub fn skip_value(self, reader: &mut &[u8]) -> (r: Result<(), Error>)
        requires
            self.spec_key_read(),
        ensures
            skips_as(V::spec_skip(old(reader)@), r, old(reader)@, final(reader)@),
    {
        V::skip_revisioned(reader)
    }
}

/// Where a key stands against the key looked for.
pub enum KeyPosition {
    Before,
    Same,
    After,
}

/// Where `k` stands against `target` in the order of keys.
pub(crate) fn key_position<K: OrderedKey>(k: &K, target: &K) -> (r: KeyPosition)
    ensures
        (r is Same) <==> *k == *target,
        (r is Before) <==> k.rank() < target.rank(),
        (r is After) <==> target.rank() < k.rank(),
{
    proof {
        K::lemma_ordered();
    }
    match k.cmp(target) {
        Ordering::Less => KeyPosition::Before,
        Ordering::Equal => KeyPosition::Same,
        Ordering::Greater => KeyPosition::After,
    }
}

/// Looking for `key` among the next `n` entries of an encoded map whose keys come in
/// increasing order: each key is read in turn; the search succeeds on an equal key, with
/// its value next, stops on a greater key, and skips the value of a smaller key before
/// going on. Gives whether the key was found and how many bytes were passed over.
pub open spec fn find_entry<K: OrderedKey + DeserializeRevisioned, V: SkipRevisioned>(
    input: Seq<u8>,
    n: nat,
    key: K,
) -> Result<(bool, nat), ErrorKind>
    decreases n,
{
    if n == 0 {
        Ok((false, 0))
    } else {
        match K::spec_decode(input) {
            Err(e) => Err(e),
            Ok((k, a)) => if k == key {
                Ok((true, a))
            } else if key.rank() < k.rank() {
                Ok((false, a))
            } else {
                match V::spec_skip(input.skip(a as int)) {
                    Err(e) => Err(e),
                    Ok(b) => match find_entry::<K, V>(input.skip((a + b) as int), (n - 1) as nat, key) {
                        Err(e) => Err(e),
                        Ok((found, c)) => Ok((found, a + b + c)),
                    },
                }
            },
        }
    }
}

/// Looks for `key` among the next `n` entries at the front of `reader`.
fn find_from<K: OrderedKey + DeserializeRevisioned, V: SkipRevisioned>(
    reader: &mut &[u8],
    n: usize,
    key: &K,
) -> (r: Result<bool, Error>)
    ensures
        match r {
            Ok(found) => find_entry::<K, V>(old(reader)@, n as nat, *key) matches Ok((f, c)) && f
                == found && c <= old(reader)@.len() && final(reader)@ == old(reader)@.skip(c as int),
            Err(e) => find_entry::<K, V>(old(reader)@, n as nat, *key) == Err::<(bool, nat), ErrorKind>(
                e.kind(),
            ),
        },
    decreases n,
{
    if n == 0 {
        return Ok(false);
    }
    let ghost input = reader@;
    let k = match K::deserialize_revisioned(reader) {
        Ok(k) => k,
        Err(e) => return Err(e),
    };
    proof {
        K::lemma_ordered();
    }
    let ghost a: nat = (input.len() - reader@.len()) as nat;
    match key_position(&k, key) {
        KeyPosition::Same => return Ok(true),
        KeyPosition::After => return Ok(false),
        KeyPosition::Before => {},
    }
    let ghost mid = reader@;
    match V::skip_revisioned(reader) {
        Ok(()) => {},
        Err(e) => return Err(e),
    }
    let ghost b: nat = (mid.len() - reader@.len()) as nat;
    assert(input.skip(a as int).skip(b as int) == input.skip((a + b) as int));
    let ghost rest = reader@;
    let r = find_from::<K, V>(reader, n - 1, key);
    proof {
        if let Ok(_) = r {
            let c = (rest.len() - reader@.len()) as nat;
            assert(input.skip((a + b) as int).skip(c as int) == input.skip((a + b + c) as int));
        }
    }
    r
}

impl<K: OrderedKey + DeserializeRevisioned, V: SkipRevisioned> MapWalker<K, V> {
    /// Reads the remaining entries in order until one has the key `key`, and gives a
    /// walker over its value, which is then next in the reader; stops with `None` at the
    /// first greater key, or when no entry is left. The keys of an encoded `BTreeMap` come
    /// in increasing order, so no later entry can have the key.
    pub fn find(self, reader: &mut &[u8], key: &K) -> (r: Result<Option<LeafWalker<V>>, Error>)
        ensures
            match r {
                Ok(found) => find_entry::<K, V>(old(reader)@, self.spec_left(), *key) matches Ok(
                    (f, c),
                ) && f == (found is Some) && c <= old(reader)@.len() && final(reader)@ == old(
                    reader,
                )@.skip(c as int),
                Err(e) => find_entry::<K, V>(old(reader)@, self.spec_left(), *key) == Err::<
                    (bool, nat),
                    ErrorKind,
                >(e.kind()),
            },
    {
        match find_from::<K, V>(reader, self.left, key) {
            Ok(true) => Ok(Some(LeafWalker::new())),
            Ok(false) => Ok(None),
            Err(e) => Err(e),
        }
    }
}

impl<K: OrderedKey + DeserializeRevisioned, V: DeserializeRevisioned> WalkRevisioned for BTreeMap<
    K,
    V,
> {
    type Walker = MapWalker<K, V>;

    /// The number of entries is read; the entries are walked one at a time.
    open spec fn walks_as(before: Seq<u8>, r: Result<MapWalker<K, V>, Error>, after: Seq<u8>) -> bool {
        opens_run(
            before,
            match r {
                Ok(w) => Ok(w.spec_left()),
                Err(e) => Err(e.kind()),
            },
            after,
        )
    }

    fn walk_revisioned(reader: &mut &[u8]) -> (r: Result<MapWalker<K, V>, Error>) {
        MapWalker::start(reader)
    }
}

impl<K: OrderedKey + Hash + DeserializeRevisioned, V: DeserializeRevisioned> WalkRevisioned for HashMap<
    K,
    V,
> {
    type Walker = MapWalker<K, V>;

    /// The number of entries is read; the entries are walked one at a time.
    open spec fn walks_as(before: Seq<u8>, r: Result<MapWalker<K, V>, Error>, after: Seq<u8>) -> bool {
        opens_run(
            before,
            match r {
                Ok(w) => Ok(w.spec_left()),
                Err(e) => Err(e.kind()),
            },
            after,
        )
    }

    fn walk_revisioned(reader: &mut &[u8]) -> (r: Result<MapWalker<K, V>, Error>) {
        MapWalker::start(reader)
    }
}

impl<T: OrderedKey + Hash + DeserializeRevisioned> WalkRevisioned for HashSet<T> {
    type Walker = SeqWalker<T>;

    /// The length is read; the items are walked one at a time.
    open spec fn walks_as(before: Seq<u8>, r: Result<SeqWalker<T>, Error>, after: Seq<u8>) -> bool {
        opens_run(
            before,
            match r {
                Ok(w) => Ok(w.spec_left()),
                Err(e) => Err(e.kind()),
            },
            after,
        )
    }

    fn walk_revisioned(reader: &mut &[u8]) -> (r: Result<SeqWalker<T>, Error>) {
        SeqWalker::start(reader)
    }
}

/// Where the bytes `a` stand against the bytes `b` in lexicographic order, from index
/// `i` on, the bytes before `i` being equal.
pub open spec fn bytes_position_from(a: Seq<u8>, b: Seq<u8>, i: nat) -> KeyPosition
    decreases a.len() - i,
{
    if i >= a.len() {
        if i >= b.len() {
            KeyPosition::Same
        } else {
            KeyPosition::Before
        }
    } else if i >= b.len() {
        KeyPosition::After
    } else if a[i as int] < b[i as int] {
        KeyPosition::Before
    } else if a[i as int] > b[i as int] {
        KeyPosition::After
    } else {
        bytes_position_from(a, b, i + 1)
    }
}

/// Where the bytes `a` stand against the bytes `b` in lexicographic order.
pub open spec fn bytes_position(a: Seq<u8>, b: Seq<u8>) -> KeyPosition {
    bytes_position_from(a, b, 0)
}

/// Compares two byte strings in lexicographic order.
fn compare_bytes(a: &[u8], b: &[u8]) -> (r: KeyPosition)
    ensures
        r == bytes_position(a@, b@),
{
    let mut i: usize = 0;
    while i < a.len() && i < b.len()
        invariant
            i <= a.len(),
            i <= b.len(),
            bytes_position(a@, b@) == bytes_position_from(a@, b@, i as nat),
        decreases a.len() - i,
    {
        if a[i] < b[i] {
            return KeyPosition::Before;
        }
        if a[i] > b[i] {
            return KeyPosition::After;
        }
        i += 1;
    }
    if i < b.len() {
        KeyPosition::Before
    } else if i < a.len() {
        KeyPosition::After
    } else {
        KeyPosition::Same
    }
}

/// Looking for the key whose raw bytes are `needle` among the next `n` entries of an
/// encoded map whose keys are length-prefixed bytes in increasing order: each key's bytes
/// are read in turn; the search succeeds on equal bytes, with the value next, stops on
/// greater bytes, and skips the value of smaller ones before going on.
pub open spec fn find_entry_bytes<V: SkipRevisioned>(input: Seq<u8>, n: nat, needle: Seq<u8>) -> Result<
    (bool, nat),
    ErrorKind,
>
    decreases n,
{
    if n == 0 {
        Ok((false, 0))
    } else {
        match read_prefixed(input) {
            Err(e) => Err(e),
            Ok((kb, a)) => match bytes_position(kb, needle) {
                KeyPosition::Same => Ok((true, a)),
                KeyPosition::After => Ok((false, a)),
                KeyPosition::Before => match V::spec_skip(input.skip(a as int)) {
                    Err(e) => Err(e),
                    Ok(b) => match find_entry_bytes::<V>(input.skip((a + b) as int), (n - 1) as nat, needle) {
                        Err(e) => Err(e),
                        Ok((found, c)) => Ok((found, a + b + c)),
                    },
                },
            },
        }
    }
}

/// Reads the raw bytes of a length-prefixed value.
fn read_prefixed_exec<'a>(reader: &mut &'a [u8]) -> (r: Result<&'a [u8], Error>)
    ensures
        match r {
            Ok(b) => read_prefixed(old(reader)@) matches Ok((bytes, n)) && b@ == bytes && n
                <= old(reader)@.len() && final(reader)@ == old(reader)@.skip(n as int),
            Err(e) => read_prefixed(old(reader)@) == Err::<(Seq<u8>, nat), ErrorKind>(e.kind()),
        },
{
    let ghost input = reader@;
    let len = match decode_len(reader) {
        Ok(len) => len,
        Err(e) => return Err(e),
    };
    let ghost k: nat = (input.len() - reader@.len()) as nat;
    let r = read_buffer(reader, len);
    proof {
        if input.len() - k >= len {
            assert(input.skip(k as int).skip(len as int) == input.skip((k + len) as int));
        }
    }
    r
}

/// Looks for the key whose raw bytes are `needle` among the next `n` entries at the front
/// of `reader`.
fn find_bytes_from<V: SkipRevisioned>(reader: &mut &[u8], n: usize, needle: &[u8]) -> (r: Result<
    bool,
    Error,
>)
    ensures
        match r {
            Ok(found) => find_entry_bytes::<V>(old(reader)@, n as nat, needle@) matches Ok((f, c))
                && f == found && c <= old(reader)@.len() && final(reader)@ == old(reader)@.skip(
                c as int,
            ),
            Err(e) => find_entry_bytes::<V>(old(reader)@, n as nat, needle@) == Err::<
                (bool, nat),
                ErrorKind,
            >(e.kind()),
        },
    decreases n,
{
    if n == 0 {
        return Ok(false);
    }
    let ghost input = reader@;
    let key = match read_prefixed_exec(reader) {
        Ok(key) => key,
        Err(e) => return Err(e),
    };
    let ghost a: nat = (input.len() - reader@.len()) as nat;
    match compare_bytes(key, needle) {
        KeyPosition::Same => return Ok(true),
        KeyPosition::After => return Ok(false),
        KeyPosition::Before => {},
    }
    let ghost mid = reader@;
    match V::skip_revisioned(reader) {
        Ok(()) => {},
        Err(e) => return Err(e),
    }
    let ghost b: nat = (mid.len() - reader@.len()) as nat;
    assert(input.skip(a as int).skip(b as int) == input.skip((a + b) as int));
    let ghost rest = reader@;
    let r = find_bytes_from::<V>(reader, n - 1, needle);
    proof {
        if let Ok(_) = r {
            let c = (rest.len() - reader@.len()) as nat;
            assert(input.skip((a + b) as int).skip(c as int) == input.skip((a + b + c) as int));
        }
    }
    r
}

impl<K: LengthPrefixedBytes, V: SkipRevisioned> MapWalker<K, V> {
    /// Like `find`, but compares each key's raw bytes, in lexicographic order, with
    /// `needle`, without decoding the key.
    pub fn find_bytes(self, reader: &mut &[u8], needle: &[u8]) -> (r: Result<Option<LeafWalker<V>>, Error>)
        ensures
            match r {
                Ok(found) => find_entry_bytes::<V>(old(reader)@, self.spec_left(), needle@) matches Ok(
                    (f, c),
                ) && f == (found is Some) && c <= old(reader)@.len() && final(reader)@ == old(
                    reader,
                )@.skip(c as int),
                Err(e) => find_entry_bytes::<V>(old(reader)@, self.spec_left(), needle@) == Err::<
                    (bool, nat),
                    ErrorKind,
                >(e.kind()),
            },
    {
        match find_bytes_from::<V>(reader, self.left, needle) {
            Ok(true) => Ok(Some(LeafWalker::new())),
            Ok(false) => Ok(None),
            Err(e) => Err(e),
        }
    }
}

impl<T: OrderedKey + DeserializeRevisioned> WalkRevisioned for crate::implementations::heap::BinaryHeap<T> {
    type Walker = SeqWalker<T>;

    /// The length is read; the items are walked one at a time.
    open spec fn walks_as(before: Seq<u8>, r: Result<SeqWalker<T>, Error>, after: Seq<u8>) -> bool {
        opens_run(
            before,
            match r {
                Ok(w) => Ok(w.spec_left()),
                Err(e) => Err(e.kind()),
            },
            after,
        )
    }

    fn walk_revisioned(reader: &mut &[u8]) -> (r: Result<SeqWalker<T>, Error>) {
        SeqWalker::start(reader)
    }
}

} // verus!
