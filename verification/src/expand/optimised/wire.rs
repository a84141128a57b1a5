//! The bytes that the generated optimised code writes and reads.
//!
//! An enum value is a tag byte (variant id in bits 0..=4, size class in bits 5..=6:
//! inline 0, fixed 1, varlen 2) and the payload the size class frames: nothing for
//! `inline`, exactly `N` bytes for `fixed(N)`, a `u32_le` length and that many bytes for
//! `varlen`. A struct value is a `u32_le` payload length and the payload: for
//! `struct = "indexed"` first one `u32_le` offset per field, each from the start of the
//! payload, then the fields one after the other.
use vstd::prelude::*;

use crate::ast::attributes::VariantSize;
use crate::ast::item::Enum;
use crate::expand::common::{
    assigned_discriminants, discriminants_assigned, lemma_assigned_discriminants,
    lemma_discriminants_distinct,
};
use crate::expand::optimised::enum_codegen::{arms_follow, enum_writable, EnumArm};
use crate::expand::walk::{
    lemma_variant_entries, lemma_walker_reads_serialized_framing, variant_entries, walker_sizes,
};
use crate::implementations::primitives::{read_buffer, write_all};
use crate::implementations::specialised::FixedLe;
use crate::{Error, ErrorKind};

verus! {

/// The little-endian bytes of `n`.
pub open spec fn u32_le(n: u32) -> Seq<u8> {
    <u32 as FixedLe>::spec_to_le(n)
}

/// The number whose little-endian bytes are `b`.
pub open spec fn from_u32_le(b: Seq<u8>) -> u32 {
    <u32 as FixedLe>::spec_from_le(b)
}

// -----------------------------------------------------------------------------
// Enums
// -----------------------------------------------------------------------------

/// The number of a size class in the tag.
pub open spec fn size_class_number(s: VariantSize) -> u8 {
    match s {
        VariantSize::Inline => 0,
        VariantSize::Fixed(_) => 1,
        VariantSize::Varlen => 2,
    }
}

/// The tag byte of variant `id` (below 32) with size class `s`: `id | class << 5`.
pub open spec fn tag_byte(id: u8, s: VariantSize) -> u8 {
    (id + 32 * size_class_number(s)) as u8
}

/// The variant id a tag byte names.
pub open spec fn tag_id(tag: u8) -> u8 {
    tag % 32
}

/// The size-class number a tag byte names (3 names none).
pub open spec fn tag_class(tag: u8) -> u8 {
    (tag / 32) % 4
}

/// How size class `s` frames `payload`.
pub open spec fn variant_frame(s: VariantSize, payload: Seq<u8>) -> Seq<u8> {
    match s {
        VariantSize::Inline => Seq::empty(),
        VariantSize::Fixed(_) => payload,
        VariantSize::Varlen => u32_le(payload.len() as u32) + payload,
    }
}

/// The bytes of variant `id` with size class `s` and payload `payload`.
pub open spec fn variant_bytes(id: u8, s: VariantSize, payload: Seq<u8>) -> Seq<u8> {
    seq![tag_byte(id, s)] + variant_frame(s, payload)
}

/// Whether `payload` fits size class `s`: none for inline, exactly `N` bytes for
/// `fixed(N)`, at most `u32::MAX` for varlen.
pub open spec fn payload_fits(s: VariantSize, payload: Seq<u8>) -> bool {
    match s {
        VariantSize::Inline => payload.len() == 0,
        VariantSize::Fixed(n) => payload.len() == n,
        VariantSize::Varlen => payload.len() <= u32::MAX,
    }
}

/// The message of the error for a varlen payload too long for its length.
pub open spec fn varlen_too_long() -> Seq<char> {
    "optimised varlen variant payload exceeds u32::MAX bytes"@
}

/// Writes one variant as a serialize arm does once its fields are encoded in `payload`:
/// the tag, then the payload as its size class frames it. A varlen payload too long for
/// its `u32` length is refused after the tag.
pub fn write_variant(arm: &EnumArm, payload: &[u8], writer: &mut Vec<u8>) -> (r: Result<(), Error>)
    requires
        arm.id < 32,
        arm.size == VariantSize::Inline ==> payload@.len() == 0,
        arm.size matches VariantSize::Fixed(n) ==> payload@.len() == n,
    ensures
        r is Ok <==> payload_fits(arm.size, payload@),
        r is Ok ==> final(writer)@ == old(writer)@ + variant_bytes(arm.id, arm.size, payload@),
        r matches Err(e) ==> (e matches Error::Serialize(m) && m@ == varlen_too_long()
            && final(writer)@ == old(writer)@.push(tag_byte(arm.id, arm.size))),
{
    let class: u8 = match arm.size {
        VariantSize::Inline => 0,
        VariantSize::Fixed(_) => 1,
        VariantSize::Varlen => 2,
    };
    let tag: u8 = arm.id + 32 * class;
    writer.push(tag);
    match arm.size {
        VariantSize::Inline => {
            assert(variant_frame(arm.size, payload@) =~= Seq::<u8>::empty());
        },
        VariantSize::Fixed(_) => {
            write_all(writer, payload);
        },
        VariantSize::Varlen => {
            if payload.len() > 0xffff_ffffusize {
                return Err(Error::Serialize("optimised varlen variant payload exceeds u32::MAX bytes".to_owned()));
            }
            <u32 as FixedLe>::write_le(payload.len() as u32, writer);
            write_all(writer, payload);
        },
    }
    assert(writer@ == old(writer)@ + variant_bytes(arm.id, arm.size, payload@));
    Ok(())
}

/// The position of the first entry of `sizes` with variant id `id` and size-class
/// number `class`.
pub open spec fn find_variant(sizes: Seq<(u8, VariantSize)>, id: u8, class: u8) -> Option<int>
    decreases sizes.len(),
{
    if sizes.len() == 0 {
        None
    } else if sizes[0].0 == id && size_class_number(sizes[0].1) == class {
        Some(0)
    } else {
        match find_variant(sizes.drop_first(), id, class) {
            Some(k) => Some(k + 1),
            None => None,
        }
    }
}

/// What reading one variant from the front of `input` gives, against the arms `sizes`
/// (variant id and size class of each): the arm matched, the payload, and the bytes
/// taken. A missing byte is an I/O error, a tag naming no size class an invalid tag,
/// and a tag that no arm matches a deserialize error.
pub open spec fn spec_read_variant(sizes: Seq<(u8, VariantSize)>, input: Seq<u8>) -> Result<
    (int, Seq<u8>, nat),
    ErrorKind,
> {
    if input.len() < 1 {
        Err(ErrorKind::Io)
    } else if tag_class(input[0]) == 3 {
        Err(ErrorKind::InvalidOptimisedTag)
    } else {
        match find_variant(sizes, tag_id(input[0]), tag_class(input[0])) {
            None => Err(ErrorKind::Deserialize),
            Some(k) => match sizes[k].1 {
                VariantSize::Inline => Ok((k, Seq::empty(), 1)),
                VariantSize::Fixed(n) => if input.len() < 1 + n {
                    Err(ErrorKind::Io)
                } else {
                    Ok((k, input.subrange(1, 1 + n), (1 + n) as nat))
                },
                VariantSize::Varlen => if input.len() < 5 {
                    Err(ErrorKind::Io)
                } else {
                    let len = from_u32_le(input.subrange(1, 5));
                    if input.len() < 5 + len {
                        Err(ErrorKind::Io)
                    } else {
                        Ok((k, input.subrange(5, 5 + len), (5 + len) as nat))
                    }
                },
            },
        }
    }
}

/// Finds the first arm of `sizes` with variant id `id` and size-class number `class`.
fn find_variant_exec(sizes: &[(u8, VariantSize)], id: u8, class: u8) -> (r: Option<usize>)
    ensures
        match r {
            Some(k) => find_variant(sizes@, id, class) == Some(k as int),
            None => find_variant(sizes@, id, class) is None,
        },
{
    let mut k: usize = 0;
    assert(sizes@.skip(0) =~= sizes@);
    while k < sizes.len()
        invariant
            k <= sizes@.len(),
            find_variant(sizes@, id, class) == match find_variant(sizes@.skip(k as int), id, class) {
                Some(j) => Some(j + k),
                None => None::<int>,
            },
        decreases sizes@.len() - k,
    {
        let ghost rest = sizes@.skip(k as int);
        assert(rest.drop_first() == sizes@.skip(k + 1));
        let (vid, size) = sizes[k];
        let c: u8 = match size {
            VariantSize::Inline => 0,
            VariantSize::Fixed(_) => 1,
            VariantSize::Varlen => 2,
        };
        if vid == id && c == class {
            return Some(k);
        }
        k = k + 1;
    }
    assert(sizes@.skip(k as int).len() == 0);
    None
}

/// Reads one variant as a generated deserialize arm or walker arm does: the tag, the arm
/// it selects among `sizes`, and the payload its size class frames.
pub fn read_variant<'a>(sizes: &[(u8, VariantSize)], reader: &mut &'a [u8]) -> (r: Result<
    (usize, &'a [u8]),
    Error,
>)
    ensures
        match r {
            Ok((k, p)) => spec_read_variant(sizes@, old(reader)@) matches Ok((kk, pp, n)) && kk
                == k && pp == p@ && final(reader)@ == old(reader)@.skip(n as int),
            Err(e) => spec_read_variant(sizes@, old(reader)@) == Err::<(int, Seq<u8>, nat), ErrorKind>(
                e.kind(),
            ),
        },
{
    let ghost input = reader@;
    let head = match read_buffer(reader, 1) {
        Ok(h) => h,
        Err(e) => return Err(e),
    };
    let tag = head[0];
    let class = (tag / 32) % 4;
    if class == 3 {
        return Err(Error::InvalidOptimisedTag);
    }
    let k = match find_variant_exec(sizes, tag % 32, class) {
        Some(k) => k,
        None => return Err(Error::Deserialize("invalid tag for optimised enum".to_owned())),
    };
    proof {
        lemma_find_variant_bound(sizes@, tag % 32, class);
    }
    match sizes[k].1 {
        VariantSize::Inline => {
            let empty: &'a [u8] = &head[1..1];
            assert(empty@ =~= Seq::<u8>::empty());
            Ok((k, empty))
        },
        VariantSize::Fixed(n) => {
            let body = match read_buffer(reader, n as usize) {
                Ok(b) => b,
                Err(e) => return Err(e),
            };
            assert(input.skip(1).take(n as int) == input.subrange(1, 1 + n));
            assert(input.skip(1).skip(n as int) == input.skip(1 + n));
            Ok((k, body))
        },
        VariantSize::Varlen => {
            let len_bytes = match read_buffer(reader, 4) {
                Ok(b) => b,
                Err(e) => return Err(e),
            };
            assert(input.skip(1).take(4) == input.subrange(1, 5));
            assert(input.skip(1).skip(4) == input.skip(5));
            let len = <u32 as FixedLe>::read_le(len_bytes);
            let body = match read_buffer(reader, len as usize) {
                Ok(b) => b,
                Err(e) => return Err(e),
            };
            assert(input.skip(5).take(len as int) == input.subrange(5, 5 + len));
            assert(input.skip(5).skip(len as int) == input.skip(5 + len));
            Ok((k, body))
        },
    }
}

/// A position that [`find_variant`] gives lies within the arms and matches.
pub proof fn lemma_find_variant_bound(sizes: Seq<(u8, VariantSize)>, id: u8, class: u8)
    ensures
        find_variant(sizes, id, class) matches Some(k) ==> 0 <= k < sizes.len() && sizes[k].0 == id
            && size_class_number(sizes[k].1) == class,
    decreases sizes.len(),
{
    if sizes.len() > 0 {
        lemma_find_variant_bound(sizes.drop_first(), id, class);
    }
}

/// An arm at `k` that no earlier arm shares its tag with is the one [`find_variant`]
/// finds for its tag.
proof fn lemma_find_variant_first(sizes: Seq<(u8, VariantSize)>, k: int)
    requires
        0 <= k < sizes.len(),
        forall|i: int|
            0 <= i < k ==> !((#[trigger] sizes[i]).0 == sizes[k].0 && size_class_number(
                sizes[i].1,
            ) == size_class_number(sizes[k].1)),
    ensures
        find_variant(sizes, sizes[k].0, size_class_number(sizes[k].1)) == Some(k),
    decreases k,
{
    if k > 0 {
        let rest = sizes.drop_first();
        assert forall|i: int|
            0 <= i < k - 1 implies !((#[trigger] rest[i]).0 == rest[k - 1].0 && size_class_number(
            rest[i].1,
        ) == size_class_number(rest[k - 1].1)) by {
            assert(rest[i] == sizes[i + 1]);
        }
        lemma_find_variant_first(rest, k - 1);
        assert(rest[k - 1] == sizes[k]);
        assert(!(sizes[0].0 == sizes[k].0 && size_class_number(sizes[0].1) == size_class_number(
            sizes[k].1,
        )));
    }
}

/// Reading back what an arm wrote gives that arm and its payload, and takes exactly the
/// bytes written, whatever follows: the tag names the arm's id and size class, and the
/// frame gives the payload back.
pub proof fn lemma_variant_round_trip(
    sizes: Seq<(u8, VariantSize)>,
    k: int,
    payload: Seq<u8>,
    rest: Seq<u8>,
)
    requires
        0 <= k < sizes.len(),
        sizes[k].0 < 32,
        forall|i: int|
            0 <= i < k ==> !((#[trigger] sizes[i]).0 == sizes[k].0 && size_class_number(
                sizes[i].1,
            ) == size_class_number(sizes[k].1)),
        payload_fits(sizes[k].1, payload),
    ensures
        spec_read_variant(sizes, variant_bytes(sizes[k].0, sizes[k].1, payload) + rest) == Ok::<
            (int, Seq<u8>, nat),
            ErrorKind,
        >((k, payload, variant_bytes(sizes[k].0, sizes[k].1, payload).len())),
{
    let id = sizes[k].0;
    let s = sizes[k].1;
    let c = size_class_number(s);
    let input = variant_bytes(id, s, payload) + rest;
    let tag = tag_byte(id, s);
    assert(c <= 2);
    assert(tag == id + 32 * c);
    assert(tag_class(tag) == c) by (nonlinear_arith)
        requires
            tag == id + 32 * c,
            id < 32,
            c <= 2,
    ;
    assert(tag_id(tag) == id) by (nonlinear_arith)
        requires
            tag == id + 32 * c,
            id < 32,
            c <= 2,
    ;
    assert(input[0] == tag);
    lemma_find_variant_first(sizes, k);
    match s {
        VariantSize::Inline => {
            assert(payload =~= Seq::<u8>::empty());
        },
        VariantSize::Fixed(n) => {
            assert(input.subrange(1, 1 + n) =~= payload);
        },
        VariantSize::Varlen => {
            let len = payload.len() as u32;
            <u32 as FixedLe>::lemma_le(len);
            assert(input.subrange(1, 5) =~= u32_le(len));
            assert(input.subrange(5, 5 + len) =~= payload);
        },
    }
}

/// What a generated optimised serialize arm writes, the generated walker (and, at the
/// same revision, the generated deserialize) reads back: the same arm, the same
/// payload, and exactly the bytes written.
pub proof fn lemma_enum_bytes_round_trip(
    e: Enum,
    revision: usize,
    arms: Seq<EnumArm>,
    k: int,
    payload: Seq<u8>,
    rest: Seq<u8>,
)
    requires
        enum_writable(e, revision),
        arms_follow(e, revision, arms, variant_entries(assigned_discriminants(e, revision))),
        0 <= k < arms.len(),
        payload_fits(arms[k].size, payload),
    ensures
        spec_read_variant(
            walker_sizes(e, variant_entries(assigned_discriminants(e, revision))),
            variant_bytes(arms[k].id, arms[k].size, payload) + rest,
        ) == Ok::<(int, Seq<u8>, nat), ErrorKind>(
            (k, payload, variant_bytes(arms[k].id, arms[k].size, payload).len()),
        ),
{
    let d = assigned_discriminants(e, revision);
    let entries = variant_entries(d);
    let sizes = walker_sizes(e, entries);
    lemma_walker_reads_serialized_framing(e, revision, arms);
    let r = choose|r: Seq<Option<u32>>|
        #[trigger] discriminants_assigned(e, revision, r) && forall|j: int|
            0 <= j < r.len() && r[j] is Some ==> r[j]->Some_0 < 32;
    lemma_assigned_discriminants(e, revision, r);
    assert(d.len() == e.variants@.len());
    assert(e.variants@.len() == e.variants.len());
    lemma_variant_entries(d);
    lemma_discriminants_distinct(e, revision, d);
    assert(d[entries[k].0 as int] == Some(entries[k].1));
    assert(sizes[k] == (arms[k].id, arms[k].size));
    assert forall|i: int|
        0 <= i < k implies !((#[trigger] sizes[i]).0 == sizes[k].0 && size_class_number(
        sizes[i].1,
    ) == size_class_number(sizes[k].1)) by {
        assert(sizes[i] == (arms[i].id, arms[i].size));
        assert(d[entries[i].0 as int] == Some(entries[i].1));
        assert(entries[i].0 < entries[k].0);
    }
    lemma_variant_round_trip(sizes, k, payload, rest);
}

// -----------------------------------------------------------------------------
// Structs
// -----------------------------------------------------------------------------

/// The encodings of `fields`, one after the other.
pub open spec fn concat_fields(fields: Seq<Seq<u8>>) -> Seq<u8>
    decreases fields.len(),
{
    if fields.len() == 0 {
        Seq::empty()
    } else {
        concat_fields(fields.drop_last()) + fields.last()
    }
}

/// The offset, from the start of an indexed payload, of field `i` of `fields`: after
/// the table of four bytes per field and the fields before it.
pub open spec fn field_offset(fields: Seq<Seq<u8>>, i: int) -> nat {
    4 * fields.len() + concat_fields(fields.take(i)).len()
}

/// The first `i` entries of the offset table of `fields`.
pub open spec fn offset_table(fields: Seq<Seq<u8>>, i: nat) -> Seq<u8>
    decreases i,
{
    if i == 0 {
        Seq::empty()
    } else {
        offset_table(fields, (i - 1) as nat) + u32_le(field_offset(fields, i - 1) as u32)
    }
}

/// The payload of a struct with field encodings `fields`: the offset table when
/// indexed, then the fields.
pub open spec fn struct_payload(fields: Seq<Seq<u8>>, indexed: bool) -> Seq<u8> {
    (if indexed {
        offset_table(fields, fields.len())
    } else {
        Seq::empty()
    }) + concat_fields(fields)
}

/// The bytes of a struct with field encodings `fields`: the payload's `u32_le` length,
/// then the payload.
pub open spec fn struct_bytes(fields: Seq<Seq<u8>>, indexed: bool) -> Seq<u8> {
    u32_le(struct_payload(fields, indexed).len() as u32) + struct_payload(fields, indexed)
}

/// The message of the error for a struct payload too long for its length.
pub open spec fn struct_too_long() -> Seq<char> {
    "optimised struct payload exceeds u32::MAX bytes"@
}

/// The views of the field encodings.
pub open spec fn field_views(fields: Seq<Vec<u8>>) -> Seq<Seq<u8>> {
    fields.map_values(|v: Vec<u8>| v@)
}

proof fn lemma_offset_table_len(fields: Seq<Seq<u8>>, i: nat)
    ensures
        offset_table(fields, i).len() == 4 * i,
    decreases i,
{
    if i > 0 {
        lemma_offset_table_len(fields, (i - 1) as nat);
        <u32 as FixedLe>::lemma_le(field_offset(fields, i - 1) as u32);
    }
}

/// Writes a struct as the generated optimised serialize body does once its fields are
/// encoded in `fields`: the payload length, then the payload, with the offset table
/// first when `indexed`. A payload too long for its `u32` length is refused before
/// anything is written.
pub fn write_struct(indexed: bool, fields: &[Vec<u8>], writer: &mut Vec<u8>) -> (r: Result<
    (),
    Error,
>)
    ensures
        r is Ok <==> struct_payload(field_views(fields@), indexed).len() <= u32::MAX,
        r is Ok ==> final(writer)@ == old(writer)@ + struct_bytes(field_views(fields@), indexed),
        r matches Err(e) ==> (e matches Error::Serialize(m) && m@ == struct_too_long()
            && final(writer)@ == old(writer)@),
{
    let ghost fs = field_views(fields@);
    let n = fields.len();
    proof {
        lemma_offset_table_len(fs, n as nat);
    }
    let mut total: usize = 0;
    if indexed {
        if n > 0x3fff_ffffusize {
            assert(fs.len() == n);
            assert(offset_table(fs, n as nat).len() == 4 * n);
            assert(struct_payload(fs, indexed).len() >= offset_table(fs, n as nat).len());
            assert(struct_payload(fs, indexed).len() > u32::MAX);
            return Err(Error::Serialize("optimised struct payload exceeds u32::MAX bytes".to_owned()));
        }
        total = n * 4;
    }
    let prologue = total;
    let mut i: usize = 0;
    while i < n
        invariant
            n == fields@.len(),
            fs == field_views(fields@),
            i <= n,
            prologue == if indexed { 4 * n } else { 0 },
            total == prologue + concat_fields(fs.take(i as int)).len(),
            total <= u32::MAX,
            offset_table(fs, n as nat).len() == 4 * n,
        decreases n - i,
    {
        assert(fs.take(i + 1).drop_last() == fs.take(i as int));
        let len = fields[i].len();
        if len > 0xffff_ffffusize - total {
            proof {
                lemma_concat_prefix_len(fs, i as int + 1);
                assert(fs.take(i + 1).last() == fields@[i as int]@);
                assert(struct_payload(fs, indexed).len() == prologue + concat_fields(fs).len());
            }
            return Err(Error::Serialize("optimised struct payload exceeds u32::MAX bytes".to_owned()));
        }
        total = total + len;
        i = i + 1;
    }
    assert(fs.take(n as int) == fs);
    <u32 as FixedLe>::write_le(total as u32, writer);
    let ghost start = writer@;
    if indexed {
        let mut off: usize = prologue;
        let mut j: usize = 0;
        while j < n
            invariant
                n == fields@.len(),
                fs == field_views(fields@),
                indexed,
                j <= n,
                prologue == 4 * n,
                off == field_offset(fs, j as int),
                off <= total,
                total == prologue + concat_fields(fs).len(),
                total <= u32::MAX,
                writer@ == start + offset_table(fs, j as nat),
            decreases n - j,
        {
            <u32 as FixedLe>::write_le(off as u32, writer);
            proof {
                assert(fs.take(j + 1).drop_last() == fs.take(j as int));
                assert(fs.take(j + 1).last() == fields@[j as int]@);
                lemma_concat_prefix_len(fs, j as int + 1);
            }
            off = off + fields[j].len();
            j = j + 1;
        }
    }
    let ghost mid = writer@;
    let mut k: usize = 0;
    while k < n
        invariant
            n == fields@.len(),
            fs == field_views(fields@),
            k <= n,
            writer@ == mid + concat_fields(fs.take(k as int)),
        decreases n - k,
    {
        assert(fs.take(k + 1).drop_last() == fs.take(k as int));
        write_all(writer, fields[k].as_slice());
        k = k + 1;
    }
    assert(fs.take(n as int) == fs);
    assert(writer@ == old(writer)@ + struct_bytes(fs, indexed));
    Ok(())
}

/// The fields before `i` take no more bytes than the fields before any later `j`.
proof fn lemma_concat_prefix_len(fields: Seq<Seq<u8>>, j: int)
    requires
        0 <= j <= fields.len(),
    ensures
        forall|i: int| 0 <= i <= j ==> concat_fields(fields.take(i)).len() <= concat_fields(
            fields.take(j),
        ).len(),
        concat_fields(fields.take(j)).len() <= concat_fields(fields).len(),
{
    lemma_concat_prefix_len_down(fields, j);
    lemma_concat_prefix_len_down(fields, fields.len() as int);
    assert(fields.take(fields.len() as int) == fields);
}

proof fn lemma_concat_prefix_len_down(fields: Seq<Seq<u8>>, j: int)
    requires
        0 <= j <= fields.len(),
    ensures
        forall|i: int| 0 <= i <= j ==> concat_fields(fields.take(i)).len() <= concat_fields(
            fields.take(j),
        ).len(),
    decreases j,
{
    if j > 0 {
        lemma_concat_prefix_len_down(fields, j - 1);
        assert(fields.take(j).drop_last() == fields.take(j - 1));
    }
}

/// What reading a struct's payload from the front of `input` gives, for a table of
/// `prologue_bytes` bytes: the bytes after the table, which hold the fields, and the
/// bytes taken. A missing byte is an I/O error; a payload shorter than its table is an
/// overrun.
pub open spec fn spec_read_struct(prologue_bytes: nat, input: Seq<u8>) -> Result<
    (Seq<u8>, nat),
    ErrorKind,
> {
    if input.len() < 4 {
        Err(ErrorKind::Io)
    } else {
        let len = from_u32_le(input.subrange(0, 4));
        if input.len() < 4 + len {
            Err(ErrorKind::Io)
        } else if len < prologue_bytes {
            Err(ErrorKind::OptimisedSubReaderOverrun)
        } else {
            Ok((input.subrange(4 + prologue_bytes as int, 4 + len), (4 + len) as nat))
        }
    }
}

/// Reads a struct's payload as the generated optimised deserialize body does: the
/// length, the payload, and, past the offset table of `prologue_bytes` bytes (the
/// plan's), the bytes its fields are read from.
pub fn read_struct_payload<'a>(prologue_bytes: usize, reader: &mut &'a [u8]) -> (r: Result<
    &'a [u8],
    Error,
>)
    ensures
        match r {
            Ok(b) => spec_read_struct(prologue_bytes as nat, old(reader)@) matches Ok((bb, n))
                && bb == b@ && final(reader)@ == old(reader)@.skip(n as int),
            Err(e) => spec_read_struct(prologue_bytes as nat, old(reader)@) == Err::<
                (Seq<u8>, nat),
                ErrorKind,
            >(e.kind()),
        },
{
    let ghost input = reader@;
    let len_bytes = match read_buffer(reader, 4) {
        Ok(b) => b,
        Err(e) => return Err(e),
    };
    assert(input.take(4) == input.subrange(0, 4));
    let len = <u32 as FixedLe>::read_le(len_bytes);
    let payload = match read_buffer(reader, len as usize) {
        Ok(b) => b,
        Err(e) => return Err(e),
    };
    assert(input.skip(4).take(len as int) == input.subrange(4, 4 + len));
    assert(input.skip(4).skip(len as int) == input.skip(4 + len));
    if payload.len() < prologue_bytes {
        return Err(Error::OptimisedSubReaderOverrun);
    }
    let body = &payload[prologue_bytes..payload.len()];
    assert(body@ == input.subrange(4 + prologue_bytes, 4 + len));
    Ok(body)
}

/// Reading back the bytes a struct was written as gives its fields, one after the
/// other, past the offset table, and takes exactly the bytes written.
pub proof fn lemma_struct_bytes_round_trip(fields: Seq<Seq<u8>>, indexed: bool, rest: Seq<u8>)
    requires
        struct_payload(fields, indexed).len() <= u32::MAX,
    ensures
        spec_read_struct(
            if indexed {
                4 * fields.len()
            } else {
                0
            },
            struct_bytes(fields, indexed) + rest,
        ) == Ok::<(Seq<u8>, nat), ErrorKind>(
            (concat_fields(fields), struct_bytes(fields, indexed).len()),
        ),
{
    let payload = struct_payload(fields, indexed);
    let input = struct_bytes(fields, indexed) + rest;
    let len = payload.len() as u32;
    <u32 as FixedLe>::lemma_le(len);
    lemma_offset_table_len(fields, fields.len());
    assert(input.subrange(0, 4) =~= u32_le(len));
    let p: nat = if indexed {
        4 * fields.len()
    } else {
        0
    };
    assert(input.subrange(4 + p as int, 4 + len) =~= concat_fields(fields));
}

// -----------------------------------------------------------------------------
// Indexed structs: the offset table
// -----------------------------------------------------------------------------

/// The `i`-th offset of the table at the start of `payload`.
pub open spec fn table_offset(payload: Seq<u8>, i: int) -> u32 {
    from_u32_le(payload.subrange(4 * i, 4 * i + 4))
}

/// The first refusal the checks of offsets `i..count` of `payload` meet: an offset
/// beyond the payload, or one not above the offset before it.
pub open spec fn offsets_error(payload: Seq<u8>, count: nat, i: nat) -> Option<ErrorKind>
    decreases count - i,
{
    if i >= count {
        None
    } else {
        let o = table_offset(payload, i as int);
        if o > payload.len() {
            Some(ErrorKind::OptimisedOffsetOutOfRange { offset: o, payload_len: payload.len() as usize })
        } else if i > 0 && o <= table_offset(payload, i - 1) {
            Some(ErrorKind::OptimisedOffsetsNonMonotonic)
        } else {
            offsets_error(payload, count, i + 1)
        }
    }
}

/// The refusal, if any, of the offset table of an indexed payload of `count` fields: too
/// short for its table, then the first bad offset.
pub open spec fn spec_check_offsets(payload: Seq<u8>, count: nat) -> Option<ErrorKind> {
    if payload.len() < 4 * count {
        Some(ErrorKind::OptimisedSubReaderOverrun)
    } else {
        offsets_error(payload, count, 0)
    }
}

/// Checks the offset table of an indexed payload of `count` fields, as the walker does
/// when it is built: long enough, each offset within the payload, strictly increasing.
pub fn check_offsets(payload: &[u8], count: usize) -> (r: Result<(), Error>)
    ensures
        r is Ok <==> spec_check_offsets(payload@, count as nat) is None,
        r matches Err(e) ==> spec_check_offsets(payload@, count as nat) == Some(e.kind()),
{
    if payload.len() / 4 < count {
        return Err(Error::OptimisedSubReaderOverrun);
    }
    let mut i: usize = 0;
    let mut prev: u32 = 0;
    assert(4 * count <= payload@.len());
    while i < count
        invariant
            i <= count,
            payload@.len() == payload.len(),
            4 * count <= payload@.len(),
            i > 0 ==> prev == table_offset(payload@, i - 1),
            offsets_error(payload@, count as nat, 0) == offsets_error(payload@, count as nat, i as nat),
        decreases count - i,
    {
        let start = 4 * i;
        let o = <u32 as FixedLe>::read_le(&payload[start..start + 4]);
        assert(payload@.subrange(start as int, start + 4) == payload@.subrange(4 * i, 4 * i + 4));
        if o as usize > payload.len() {
            return Err(Error::OptimisedOffsetOutOfRange { offset: o, payload_len: payload.len() });
        }
        if i > 0 && o <= prev {
            return Err(Error::OptimisedOffsetsNonMonotonic);
        }
        prev = o;
        i = i + 1;
    }
    Ok(())
}

/// A table that passes the checks has each offset within the payload and above the one
/// before it.
pub proof fn lemma_offsets_valid(payload: Seq<u8>, count: nat, i: nat)
    requires
        offsets_error(payload, count, i) is None,
    ensures
        forall|k: int| i <= k < count ==> #[trigger] table_offset(payload, k) <= payload.len(),
        forall|k: int|
            i < k < count ==> table_offset(payload, k - 1) < #[trigger] table_offset(payload, k),
    decreases count - i,
{
    if i < count {
        lemma_offsets_valid(payload, count, i + 1);
    }
}

/// Where the bytes of field `i` of a checked indexed payload of `count` fields end: at
/// the next offset, or at the end of the payload for the last field.
pub open spec fn field_end(payload: Seq<u8>, count: nat, i: int) -> int {
    if i + 1 < count {
        table_offset(payload, i + 1) as int
    } else {
        payload.len() as int
    }
}

/// The bytes of field `i` of a checked indexed payload, which the walker reads that field
/// from without reading the fields before it.
#[verifier::rlimit(30)]
pub fn indexed_field(payload: &[u8], count: usize, i: usize) -> (r: &[u8])
    requires
        spec_check_offsets(payload@, count as nat) is None,
        i < count,
    ensures
        r@ == payload@.subrange(table_offset(payload@, i as int) as int, field_end(payload@, count as nat, i as int)),
{
    proof {
        lemma_offsets_valid(payload@, count as nat, 0);
    }
    assert(4 * count <= payload@.len());
    assert(payload@.len() == payload.len());
    let base = 4 * i;
    let head = &payload[base..base + 4];
    assert(head@ == payload@.subrange(4 * i, 4 * i + 4));
    let start = <u32 as FixedLe>::read_le(head) as usize;
    assert(start == table_offset(payload@, i as int));
    assert(start <= payload@.len());
    let end = if i + 1 < count {
        let next = 4 * (i + 1);
        let tail = &payload[next..next + 4];
        assert(tail@ == payload@.subrange(4 * (i + 1), 4 * (i + 1) + 4));
        let e = <u32 as FixedLe>::read_le(tail) as usize;
        assert(e == table_offset(payload@, i + 1));
        assert(table_offset(payload@, (i + 1) - 1) < table_offset(payload@, i + 1));
        e
    } else {
        payload.len()
    };
    &payload[start..end]
}

/// The `i`-th entry of a written offset table holds the offset of field `i`.
proof fn lemma_offset_table_entry(fields: Seq<Seq<u8>>, n: nat, i: int)
    requires
        0 <= i < n,
    ensures
        offset_table(fields, n).subrange(4 * i, 4 * i + 4) == u32_le(field_offset(fields, i) as u32),
    decreases n,
{
    lemma_offset_table_len(fields, (n - 1) as nat);
    <u32 as FixedLe>::lemma_le(field_offset(fields, n - 1) as u32);
    let prev = offset_table(fields, (n - 1) as nat);
    if i == n - 1 {
        assert(offset_table(fields, n).subrange(4 * i, 4 * i + 4) =~= u32_le(
            field_offset(fields, i) as u32,
        ));
    } else {
        lemma_offset_table_entry(fields, (n - 1) as nat, i);
        assert(offset_table(fields, n).subrange(4 * i, 4 * i + 4) =~= prev.subrange(4 * i, 4 * i + 4));
    }
}

/// The fields before `j`, one after the other, begin the fields one after the other.
proof fn lemma_concat_prefix(fields: Seq<Seq<u8>>, j: int)
    requires
        0 <= j <= fields.len(),
    ensures
        concat_fields(fields).subrange(0, concat_fields(fields.take(j)).len() as int)
            == concat_fields(fields.take(j)),
    decreases fields.len() - j,
{
    lemma_concat_prefix_len(fields, j);
    if j == fields.len() {
        assert(fields.take(j) == fields);
        assert(concat_fields(fields).subrange(0, concat_fields(fields).len() as int) =~= concat_fields(fields));
    } else {
        lemma_concat_prefix(fields, j + 1);
        lemma_concat_prefix_len(fields, j + 1);
        assert(fields.take(j + 1).drop_last() == fields.take(j));
        let a = concat_fields(fields.take(j));
        let b = concat_fields(fields.take(j + 1));
        assert(b == a + fields[j]);
        assert(b.len() == a.len() + fields[j].len());
        assert(concat_fields(fields).subrange(0, a.len() as int) =~= concat_fields(fields).subrange(
            0,
            b.len() as int,
        ).subrange(0, a.len() as int));
        assert(concat_fields(fields).subrange(0, a.len() as int) =~= b.subrange(0, a.len() as int));
        assert(b.subrange(0, a.len() as int) =~= a);
    }
}

/// Every check of a written offset table of non-empty fields passes.
proof fn lemma_written_offsets_ok(fields: Seq<Seq<u8>>, i: nat)
    requires
        struct_payload(fields, true).len() <= u32::MAX,
        forall|k: int| 0 <= k < fields.len() ==> (#[trigger] fields[k]).len() > 0,
        i <= fields.len(),
    ensures
        offsets_error(struct_payload(fields, true), fields.len(), i) is None,
    decreases fields.len() - i,
{
    if i < fields.len() {
        lemma_written_offsets_ok(fields, i + 1);
        lemma_written_offset(fields, i as int);
        if i > 0 {
            lemma_written_offset(fields, i - 1);
            assert(fields.take(i as int).drop_last() == fields.take(i - 1));
            assert(fields.take(i as int).last() == fields[i - 1]);
        }
    }
}

/// The `i`-th offset of a written indexed payload is the offset of field `i`, within the
/// payload.
proof fn lemma_written_offset(fields: Seq<Seq<u8>>, i: int)
    requires
        struct_payload(fields, true).len() <= u32::MAX,
        0 <= i < fields.len(),
    ensures
        table_offset(struct_payload(fields, true), i) == field_offset(fields, i),
        field_offset(fields, i) <= struct_payload(fields, true).len(),
{
    let n = fields.len();
    let p = struct_payload(fields, true);
    lemma_offset_table_len(fields, n);
    lemma_offset_table_entry(fields, n, i);
    lemma_concat_prefix_len(fields, i);
    assert(p.subrange(4 * i, 4 * i + 4) =~= offset_table(fields, n).subrange(4 * i, 4 * i + 4));
    <u32 as FixedLe>::lemma_le(field_offset(fields, i) as u32);
}

/// In a written indexed payload of non-empty fields, the offset table passes the
/// walker's checks, and the bytes the walker reads field `i` from are field `i`.
pub proof fn lemma_indexed_fields_round_trip(fields: Seq<Seq<u8>>, i: int)
    requires
        struct_payload(fields, true).len() <= u32::MAX,
        forall|k: int| 0 <= k < fields.len() ==> (#[trigger] fields[k]).len() > 0,
        0 <= i < fields.len(),
    ensures
        spec_check_offsets(struct_payload(fields, true), fields.len()) is None,
        struct_payload(fields, true).subrange(
            table_offset(struct_payload(fields, true), i) as int,
            field_end(struct_payload(fields, true), fields.len(), i),
        ) == fields[i],
{
    let n = fields.len();
    let p = struct_payload(fields, true);
    let c = concat_fields(fields);
    lemma_offset_table_len(fields, n);
    lemma_written_offsets_ok(fields, 0);
    lemma_written_offset(fields, i);
    assert(fields.take(i + 1).drop_last() == fields.take(i));
    assert(fields.take(i + 1).last() == fields[i]);
    let a = concat_fields(fields.take(i));
    let b = concat_fields(fields.take(i + 1));
    lemma_concat_prefix(fields, i + 1);
    lemma_concat_prefix_len(fields, i + 1);
    if i + 1 < n {
        lemma_written_offset(fields, i + 1);
    } else {
        assert(fields.take(i + 1) == fields);
    }
    assert(field_end(p, n, i) == 4 * n + b.len());
    assert(p.subrange((4 * n + a.len()) as int, (4 * n + b.len()) as int) =~= c.subrange(a.len() as int, b.len() as int));
    assert(c.subrange(a.len() as int, b.len() as int) =~= b.subrange(a.len() as int, b.len() as int));
    assert(b.subrange(a.len() as int, b.len() as int) =~= fields[i]);
}

} // verus!
