//! Passes over an item that the code generators share.
use vstd::prelude::*;

use vstd::std_specs::hash::group_hash_axioms;

use crate::ast::item::{fields_of, Enum, Field, Fields, Item, ItemKind, Variant};
use crate::expand::validate_version::ValidationError;
use crate::ast::text::{chars_of, is_word, string_from_chars, trim, trim_bounds};

verus! {

/// Whether some field of `fields` has a `convert_fn`.
pub open spec fn fields_have_convert(fields: Seq<Field>) -> bool {
    exists|i: int| 0 <= i < fields.len() && (#[trigger] fields[i]).attrs.convert is Some
}

/// Whether the variant, or one of its fields, has a `convert_fn`.
pub open spec fn variant_has_convert(v: Variant) -> bool {
    v.attrs.convert is Some || fields_have_convert(v.fields.list())
}

/// Whether any field or variant of `item` has a `convert_fn`.
pub open spec fn item_has_convert_fn(item: Item) -> bool {
    match item.kind {
        ItemKind::Struct(s) => fields_have_convert(s.fields.list()),
        ItemKind::Enum(e) => exists|i: int|
            0 <= i < e.variants@.len() && variant_has_convert(#[trigger] e.variants@[i]),
    }
}

/// Scans an item for any `convert_fn` annotation on a field or a variant.
///
/// A `convert_fn` mutates the value under construction from a wire-only field, so it
/// cannot be expressed as field-by-field walking: types that hold one need the
/// walker's materialised path when the wire revision differs from the schema's.
#[derive(Debug, Clone, Copy, PartialEq, Eq, Structural)]
pub struct HasConvertFn {
    pub found: bool,
}

impl Default for HasConvertFn {
    fn default() -> (r: HasConvertFn)
        ensures
            !r.found,
    {
        HasConvertFn { found: false }
    }
}

impl HasConvertFn {
    /// Whether any field or variant in `item` has a `convert_fn` annotation.
    pub fn check(item: &Item) -> (r: bool)
        ensures
            r == item_has_convert_fn(*item),
    {
        let mut visitor = HasConvertFn::default();
        visitor.visit_item(item);
        visitor.found
    }

    pub fn visit_field(&mut self, i: &Field)
        ensures
            final(self).found == (old(self).found || i.attrs.convert is Some),
    {
        if i.attrs.convert.is_some() {
            self.found = true;
        }
    }

    pub fn visit_fields(&mut self, f: &Fields)
        ensures
            final(self).found == (old(self).found || fields_have_convert(f.list())),
    {
        let fields = fields_of(f);
        let ghost before = self.found;
        let mut k: usize = 0;
        while k < fields.len()
            invariant
                k <= fields.len(),
                fields@ == f.list(),
                self.found == (before || fields_have_convert(fields@.take(k as int))),
            decreases fields.len() - k,
        {
            self.visit_field(&fields[k]);
            proof {
                let t = fields@.take(k + 1);
                if fields_have_convert(fields@.take(k as int)) {
                    let i = choose|i: int|
                        0 <= i < k && (#[trigger] fields@.take(k as int)[i]).attrs.convert is Some;
                    assert(t[i] == fields@[i]);
                }
                if fields_have_convert(t) {
                    let i = choose|i: int| 0 <= i < k + 1 && (#[trigger] t[i]).attrs.convert is Some;
                    if i < k {
                        assert(fields@.take(k as int)[i] == t[i]);
                    }
                }
                assert(t[k as int] == fields@[k as int]);
            }
            k = k + 1;
        }
        assert(fields@.take(fields.len() as int) == fields@);
    }

    pub fn visit_variant(&mut self, i: &Variant)
        ensures
            final(self).found == (old(self).found || variant_has_convert(*i)),
    {
        if i.attrs.convert.is_some() {
            self.found = true;
            return ;
        }
        self.visit_fields(&i.fields)
    }

    pub fn visit_item(&mut self, i: &Item)
        ensures
            final(self).found == (old(self).found || item_has_convert_fn(*i)),
    {
        match &i.kind {
            ItemKind::Struct(s) => self.visit_fields(&s.fields),
            ItemKind::Enum(e) => {
                let ghost before = self.found;
                let mut k: usize = 0;
                while k < e.variants.len()
                    invariant
                        k <= e.variants.len(),
                        self.found == (before || exists|j: int|
                            0 <= j < k && variant_has_convert(#[trigger] e.variants@[j])),
                    decreases e.variants.len() - k,
                {
                    self.visit_variant(&e.variants[k]);
                    k = k + 1;
                }
            },
        }
    }
}

/// The integer types that `#[revision(fixed)]` supports.
pub open spec fn is_fixed_int_name(name: Seq<char>) -> bool {
    ||| name == "u32"@
    ||| name == "i32"@
    ||| name == "u64"@
    ||| name == "i64"@
    ||| name == "u128"@
    ||| name == "i128"@
}

/// If the type, as written (`ty`, its tokens with surrounding whitespace removed), is
/// one of the supported integers spelled as a bare name, that name.
///
/// The match is purely syntactic: aliases and qualified paths are not seen through.
pub fn fixed_int_name(ty: &str) -> (r: Option<&'static str>)
    ensures
        r is Some <==> is_fixed_int_name(trim(ty@)),
        r matches Some(n) ==> n@ == trim(ty@),
{
    let chars = chars_of(ty);
    let (lo, hi) = trim_bounds(&chars, 0, chars.len());
    assert(chars@.subrange(0, chars@.len() as int) == ty@);
    if is_word(&chars, lo, hi, "u32") {
        return Some("u32");
    }
    if is_word(&chars, lo, hi, "i32") {
        return Some("i32");
    }
    if is_word(&chars, lo, hi, "u64") {
        return Some("u64");
    }
    if is_word(&chars, lo, hi, "i64") {
        return Some("i64");
    }
    if is_word(&chars, lo, hi, "u128") {
        return Some("u128");
    }
    if is_word(&chars, lo, hi, "i128") {
        return Some("i128");
    }
    None
}


/// The name of the runtime helper `<prefix><int>_fixed_le` for a `#[revision(fixed)]`
/// field of type `ty`, or the refusal when `ty` is not a supported bare integer.
fn fixed_helper(prefix: &str, ty: &str) -> (r: Result<String, ValidationError>)
    ensures
        r is Ok <==> is_fixed_int_name(trim(ty@)),
        r matches Ok(n) ==> n@ == prefix@ + trim(ty@) + "_fixed_le"@,
        r matches Err(e) ==> e == ValidationError::FixedNeedsBareInteger,
{
    let kind = match fixed_int_name(ty) {
        Some(k) => k,
        None => return Err(ValidationError::FixedNeedsBareInteger),
    };
    let mut out = chars_of(prefix);
    let mut k = chars_of(kind);
    let mut tail = chars_of("_fixed_le");
    out.append(&mut k);
    out.append(&mut tail);
    Ok(string_from_chars(&out))
}

/// The runtime helper a `#[revision(fixed)]` field of type `ty` is serialized with:
/// `encode_<int>_fixed_le`.
pub fn emit_serialize_fixed_le(ty: &str) -> (r: Result<String, ValidationError>)
    ensures
        r is Ok <==> is_fixed_int_name(trim(ty@)),
        r matches Ok(n) ==> n@ == "encode_"@ + trim(ty@) + "_fixed_le"@,
        r matches Err(e) ==> e == ValidationError::FixedNeedsBareInteger,
{
    fixed_helper("encode_", ty)
}

/// The runtime helper a `#[revision(fixed)]` field of type `ty` is deserialized with:
/// `decode_<int>_fixed_le`.
pub fn emit_deserialize_fixed_le(ty: &str) -> (r: Result<String, ValidationError>)
    ensures
        r is Ok <==> is_fixed_int_name(trim(ty@)),
        r matches Ok(n) ==> n@ == "decode_"@ + trim(ty@) + "_fixed_le"@,
        r matches Err(e) ==> e == ValidationError::FixedNeedsBareInteger,
{
    fixed_helper("decode_", ty)
}

/// The runtime helper a `#[revision(fixed)]` field of type `ty` is skipped with:
/// `skip_<int>_fixed_le`.
pub fn emit_skip_fixed_le(ty: &str) -> (r: Result<String, ValidationError>)
    ensures
        r is Ok <==> is_fixed_int_name(trim(ty@)),
        r matches Ok(n) ==> n@ == "skip_"@ + trim(ty@) + "_fixed_le"@,
        r matches Err(e) ==> e == ValidationError::FixedNeedsBareInteger,
{
    fixed_helper("skip_", ty)
}

// -----------------------------------------------------------------------------
// Fields present at a revision
// -----------------------------------------------------------------------------

/// The positions, in order, of the fields of `fields` present at `revision`.
pub open spec fn alive_positions(fields: Seq<Field>, revision: usize) -> Seq<usize>
    decreases fields.len(),
{
    if fields.len() == 0 {
        Seq::empty()
    } else {
        let init = alive_positions(fields.drop_last(), revision);
        if fields.last().attrs.spec_exists_at(revision) {
            init.push((fields.len() - 1) as usize)
        } else {
            init
        }
    }
}

/// The positions of the fields present at a revision lie within the fields, and there
/// are no more of them than fields.
pub proof fn lemma_alive_positions_bound(fields: Seq<Field>, revision: usize)
    ensures
        alive_positions(fields, revision).len() <= fields.len(),
        forall|k: int|
            0 <= k < alive_positions(fields, revision).len() ==> #[trigger] alive_positions(
                fields,
                revision,
            )[k] < fields.len(),
    decreases fields.len(),
{
    if fields.len() > 0 {
        lemma_alive_positions_bound(fields.drop_last(), revision);
    }
}

/// A position is among those of the fields present at a revision exactly when the field
/// there is present.
pub proof fn lemma_alive_positions_contains(fields: Seq<Field>, revision: usize, i: int)
    requires
        0 <= i < fields.len(),
        fields.len() <= usize::MAX,
    ensures
        alive_positions(fields, revision).contains(i as usize) <==> fields[i].attrs.spec_exists_at(
            revision,
        ),
    decreases fields.len(),
{
    let init = alive_positions(fields.drop_last(), revision);
    lemma_alive_positions_bound(fields.drop_last(), revision);
    if i == fields.len() - 1 {
        if fields.last().attrs.spec_exists_at(revision) {
            assert(alive_positions(fields, revision).last() == i as usize);
        } else {
            if init.contains(i as usize) {
                let k = choose|k: int| 0 <= k < init.len() && init[k] == i as usize;
                assert(init[k] < fields.drop_last().len());
            }
        }
    } else {
        lemma_alive_positions_contains(fields.drop_last(), revision, i);
        assert(fields.drop_last()[i] == fields[i]);
        if fields.last().attrs.spec_exists_at(revision) {
            let all = alive_positions(fields, revision);
            assert(all == init.push((fields.len() - 1) as usize));
            if all.contains(i as usize) {
                let k = choose|k: int| 0 <= k < all.len() && all[k] == i as usize;
                if k < init.len() {
                    assert(init[k] == i as usize);
                }
            }
            if init.contains(i as usize) {
                let k = choose|k: int| 0 <= k < init.len() && init[k] == i as usize;
                assert(all[k] == i as usize);
            }
        }
    }
}

/// The positions, in order, of the fields of `fields` present at `revision`.
pub fn alive_field_positions(fields: &[Field], revision: usize) -> (r: Vec<usize>)
    ensures
        r@ == alive_positions(fields@, revision),
{
    let mut r: Vec<usize> = Vec::new();
    let mut k: usize = 0;
    while k < fields.len()
        invariant
            k <= fields@.len(),
            r@ == alive_positions(fields@.take(k as int), revision),
        decreases fields@.len() - k,
    {
        assert(fields@.take(k + 1).drop_last() == fields@.take(k as int));
        if fields[k].attrs.exists_at(revision) {
            r.push(k);
        }
        k = k + 1;
    }
    assert(fields@.take(fields@.len() as int) == fields@);
    r
}

// -----------------------------------------------------------------------------
// Discriminants
// -----------------------------------------------------------------------------

/// The discriminant that the variant at `j` is given by an override on `revision`,
/// when it is present at `revision`.
pub open spec fn override_discriminant(e: Enum, revision: usize, j: int) -> Option<u32> {
    let v = e.variants@[j];
    if v.attrs.spec_exists_at(revision) && v.attrs.overrides@.contains_key(revision) {
        v.attrs.overrides@[revision].discriminant
    } else {
        None
    }
}

/// Whether `d` is the override discriminant of some variant on `revision`.
pub open spec fn is_override_value(e: Enum, revision: usize, d: u32) -> bool {
    exists|i: int|
        0 <= i < e.variants@.len() && #[trigger] override_discriminant(e, revision, i) == Some(d)
}

/// Whether two variants present at `revision` override to the same discriminant.
pub open spec fn overrides_repeat(e: Enum, revision: usize) -> bool {
    exists|i: int, j: int|
        0 <= i < j < e.variants@.len() && (#[trigger] override_discriminant(e, revision, i))
            is Some && override_discriminant(e, revision, i) == #[trigger] override_discriminant(
            e,
            revision,
            j,
        )
}

/// Whether the variant at `j` is present at `revision` without an override.
pub open spec fn is_plain(e: Enum, revision: usize, j: int) -> bool {
    e.variants@[j].attrs.spec_exists_at(revision) && override_discriminant(e, revision, j) is None
}

/// Whether `r` gives each variant its discriminant at `revision`: none to an absent
/// variant, the override to an overridden one, and to the others, in order, the
/// smallest values that no override takes.
pub open spec fn discriminants_assigned(e: Enum, revision: usize, r: Seq<Option<u32>>) -> bool {
    &&& r.len() == e.variants@.len()
    &&& forall|j: int|
        0 <= j < r.len() && !e.variants@[j].attrs.spec_exists_at(revision) ==> #[trigger] r[j]
            is None
    &&& forall|j: int|
        0 <= j < r.len() && (#[trigger] override_discriminant(e, revision, j)) is Some ==> r[j]
            == override_discriminant(e, revision, j)
    &&& forall|j: int|
        0 <= j < r.len() && #[trigger] is_plain(e, revision, j) ==> r[j] is Some
            && !is_override_value(e, revision, r[j]->Some_0)
    &&& forall|i: int, j: int|
        0 <= i < j < r.len() && #[trigger] is_plain(e, revision, i) && #[trigger] is_plain(
            e,
            revision,
            j,
        ) ==> r[i]->Some_0 < r[j]->Some_0
    &&& forall|j: int, v: u32|
        0 <= j < r.len() && #[trigger] is_plain(e, revision, j) && v < r[j]->Some_0
            && !#[trigger] is_override_value(e, revision, v) ==> exists|i: int|
            0 <= i < j && is_plain(e, revision, i) && #[trigger] r[i] == Some(v)
}

/// The number of assigned entries of `r`.
pub open spec fn count_assigned(r: Seq<Option<u32>>) -> nat
    decreases r.len(),
{
    if r.len() == 0 {
        0
    } else {
        count_assigned(r.drop_last()) + if r.last() is Some {
            1nat
        } else {
            0nat
        }
    }
}

proof fn lemma_count_assigned_bound(r: Seq<Option<u32>>)
    ensures
        count_assigned(r) <= r.len(),
    decreases r.len(),
{
    if r.len() > 0 {
        lemma_count_assigned_bound(r.drop_last());
    }
}

proof fn lemma_count_assigned_update(r: Seq<Option<u32>>, j: int, x: u32)
    requires
        0 <= j < r.len(),
        r[j] is None,
    ensures
        count_assigned(r.update(j, Some(x))) == count_assigned(r) + 1,
    decreases r.len(),
{
    let u = r.update(j, Some(x));
    if j == r.len() - 1 {
        assert(u.drop_last() == r.drop_last());
    } else {
        assert(u.drop_last() == r.drop_last().update(j, Some(x)));
        lemma_count_assigned_update(r.drop_last(), j, x);
    }
}

/// A sequence without repetitions that holds every value below `k` has at least `k`
/// elements.
proof fn lemma_range_covered(s: Seq<u32>, k: nat)
    requires
        k <= 0x1_0000_0000,
        s.no_duplicates(),
        forall|v: u32| v < k ==> s.contains(v),
    ensures
        k <= s.len(),
    decreases k,
{
    if k > 0 {
        let top = (k - 1) as u32;
        assert(s.contains(top));
        let idx = choose|i: int| 0 <= i < s.len() && s[i] == top;
        let t = s.remove(idx);
        assert forall|v: u32| v < k - 1 implies t.contains(v) by {
            assert(s.contains(v));
            let i = choose|i: int| 0 <= i < s.len() && s[i] == v;
            if i < idx {
                assert(t[i] == v);
            } else {
                assert(i != idx);
                assert(t[i - 1] == v);
            }
        }
        assert forall|a: int, b: int| 0 <= a < t.len() && 0 <= b < t.len() && a != b implies t[a]
            != t[b] by {
            let sa = if a < idx {
                a
            } else {
                a + 1
            };
            let sb = if b < idx {
                b
            } else {
                b + 1
            };
            assert(t[a] == s[sa] && t[b] == s[sb]);
        }
        lemma_range_covered(t, (k - 1) as nat);
    }
}

fn contains_value(v: &Vec<u32>, x: u32) -> (r: bool)
    ensures
        r == v@.contains(x),
{
    let mut i: usize = 0;
    while i < v.len()
        invariant
            i <= v.len(),
            forall|j: int| 0 <= j < i ==> v@[j] != x,
        decreases v.len() - i,
    {
        if v[i] == x {
            return true;
        }
        i = i + 1;
    }
    false
}

/// The smallest value from `from` on that `used` does not hold.
fn first_free(used: &Vec<u32>, from: u32) -> (r: u32)
    requires
        used.len() < u32::MAX,
        used@.no_duplicates(),
        forall|v: u32| v < from ==> used@.contains(v),
    ensures
        from <= r,
        !used@.contains(r),
        forall|v: u32| v < r ==> used@.contains(v),
{
    let mut next = from;
    while contains_value(used, next)
        invariant
            from <= next,
            used.len() < u32::MAX,
            used@.no_duplicates(),
            forall|v: u32| v < next ==> used@.contains(v),
        decreases u32::MAX - next,
    {
        proof {
            assert forall|v: u32| v < next + 1 implies used@.contains(v) by {}
            lemma_range_covered(used@, (next + 1) as nat);
        }
        next = next + 1;
    }
    next
}

/// The override discriminant of `v` on `revision`, when `v` is present there.
fn override_of(v: &Variant, revision: usize) -> (r: Option<u32>)
    ensures
        r == (if v.attrs.spec_exists_at(revision) && v.attrs.overrides@.contains_key(revision) {
            v.attrs.overrides@[revision].discriminant
        } else {
            None
        }),
{
    broadcast use group_hash_axioms;

    if !v.attrs.exists_at(revision) {
        return None;
    }
    match v.attrs.overrides.get(&revision) {
        Some(o) => o.discriminant,
        None => None,
    }
}

proof fn lemma_count_assigned_none(r: Seq<Option<u32>>)
    requires
        forall|i: int| 0 <= i < r.len() ==> r[i] is None,
    ensures
        count_assigned(r) == 0,
    decreases r.len(),
{
    if r.len() > 0 {
        lemma_count_assigned_none(r.drop_last());
    }
}

/// A pass which calculates the discriminants of the variants of an enum at a revision.
pub struct CalcDiscriminant {
    pub revision: usize,
}

impl CalcDiscriminant {
    pub fn new(revision: usize) -> (r: CalcDiscriminant)
        ensures
            r.revision == revision,
    {
        CalcDiscriminant { revision }
    }

    /// Computes the discriminants of the variants of `e` at the revision, by position:
    /// first the overrides of the variants present, which must all differ, then, in
    /// order, the smallest free values for the other present variants.
    pub fn visit_enum(&self, e: &Enum) -> (r: Result<Vec<Option<u32>>, ValidationError>)
        requires
            e.variants.len() < u32::MAX,
        ensures
            r is Err <==> overrides_repeat(*e, self.revision),
            r matches Err(err) ==> err == ValidationError::DiscriminantUsedTwice,
            r matches Ok(d) ==> discriminants_assigned(*e, self.revision, d@),
    {
        let revision = self.revision;
        let n = e.variants.len();
        let ghost ee = *e;
        let mut result: Vec<Option<u32>> = Vec::new();
        while result.len() < n
            invariant
                result.len() <= n,
                forall|i: int| 0 <= i < result.len() ==> result@[i] is None,
            decreases n - result.len(),
        {
            result.push(None);
        }
        proof {
            lemma_count_assigned_none(result@);
        }
        let mut used: Vec<u32> = Vec::new();
        let mut j: usize = 0;
        while j < n
            invariant
                n == e.variants.len(),
                ee == *e,
                revision == self.revision,
                j <= n,
                result@.len() == n,
                forall|i: int|
                    0 <= i < j ==> #[trigger] result@[i] == override_discriminant(ee, revision, i),
                forall|i: int| j <= i < n ==> #[trigger] result@[i] is None,
                used@.no_duplicates(),
                forall|d: u32|
                    used@.contains(d) <==> exists|i: int| 0 <= i < j && #[trigger] result@[i] == Some(d),
                used.len() == count_assigned(result@),
                !exists|a: int, b: int|
                    0 <= a < b < j && (#[trigger] override_discriminant(ee, revision, a)) is Some
                        && override_discriminant(ee, revision, a) == #[trigger] override_discriminant(
                        ee,
                        revision,
                        b,
                    ),
            decreases n - j,
        {
            let o = override_of(&e.variants[j], revision);
            assert(o == override_discriminant(ee, revision, j as int));
            if let Some(d) = o {
                if contains_value(&used, d) {
                    proof {
                        let a = choose|i: int| 0 <= i < j && result@[i] == Some(d);
                        assert(override_discriminant(ee, revision, a) == Some(d));
                        assert(overrides_repeat(ee, revision));
                    }
                    return Err(ValidationError::DiscriminantUsedTwice);
                }
                let ghost old_used = used@;
                let ghost old_result = result@;
                proof {
                    lemma_count_assigned_update(result@, j as int, d);
                }
                used.push(d);
                result.set(j, Some(d));
                proof {
                    assert(used@ == old_used.push(d));
                    assert forall|a: int, b: int|
                        0 <= a < b < j + 1 && (#[trigger] override_discriminant(ee, revision, a))
                            is Some && override_discriminant(ee, revision, a)
                            == #[trigger] override_discriminant(ee, revision, b) implies false by {
                        if b == j {
                            assert(old_result[a] == Some(d));
                            assert(old_used.contains(d));
                        }
                    }
                    assert forall|x: u32|
                        used@.contains(x) <==> exists|i: int|
                            0 <= i < j + 1 && #[trigger] result@[i] == Some(x) by {
                        if used@.contains(x) {
                            if x == d {
                                assert(result@[j as int] == Some(d));
                            } else {
                                let k = choose|k: int| 0 <= k < used@.len() && used@[k] == x;
                                assert(old_used[k] == x);
                                assert(old_used.contains(x));
                                let i = choose|i: int| 0 <= i < j && old_result[i] == Some(x);
                                assert(result@[i] == old_result[i]);
                            }
                        }
                        if exists|i: int| 0 <= i < j + 1 && #[trigger] result@[i] == Some(x) {
                            let i = choose|i: int| 0 <= i < j + 1 && #[trigger] result@[i] == Some(x);
                            if i == j {
                                assert(used@[old_used.len() as int] == d);
                            } else {
                                assert(old_result[i] == result@[i]);
                                assert(old_used.contains(x));
                                let k = choose|k: int| 0 <= k < old_used.len() && old_used[k] == x;
                                assert(used@[k] == x);
                            }
                        }
                    }
                }
            }
            j = j + 1;
        }
        proof {
            assert forall|x: u32| #[trigger]
                used@.contains(x) <==> (is_override_value(ee, revision, x) || exists|i: int|
                    0 <= i < 0 && is_plain(ee, revision, i) && #[trigger] result@[i] == Some(x)) by {
                if used@.contains(x) {
                    let i = choose|i: int| 0 <= i < n && #[trigger] result@[i] == Some(x);
                    assert(override_discriminant(ee, revision, i) == Some(x));
                }
                if is_override_value(ee, revision, x) {
                    let i = choose|i: int|
                        0 <= i < n && #[trigger] override_discriminant(ee, revision, i) == Some(x);
                    assert(result@[i] == Some(x));
                }
            }
        }
        let mut next: u32 = 0;
        j = 0;
        while j < n
            invariant
                n == e.variants.len(),
                n < u32::MAX,
                ee == *e,
                j <= n,
                result@.len() == n,
                !overrides_repeat(ee, revision),
                forall|i: int|
                    j <= i < n ==> #[trigger] result@[i] == override_discriminant(ee, revision, i),
                forall|i: int|
                    0 <= i < j && !is_plain(ee, revision, i) ==> #[trigger] result@[i]
                        == override_discriminant(ee, revision, i),
                forall|i: int|
                    0 <= i < j && #[trigger] is_plain(ee, revision, i) ==> result@[i] is Some
                        && !is_override_value(ee, revision, result@[i]->Some_0) && result@[i]->Some_0
                        < next,
                forall|a: int, b: int|
                    0 <= a < b < j && #[trigger] is_plain(ee, revision, a) && #[trigger] is_plain(
                        ee,
                        revision,
                        b,
                    ) ==> result@[a]->Some_0 < result@[b]->Some_0,
                used@.no_duplicates(),
                forall|d: u32| #[trigger]
                    used@.contains(d) <==> (is_override_value(ee, revision, d) || exists|i: int|
                        0 <= i < j && is_plain(ee, revision, i) && #[trigger] result@[i] == Some(d)),
                forall|v: u32| v < next ==> used@.contains(v),
                used.len() == count_assigned(result@),
                forall|i: int, v: u32|
                    0 <= i < j && #[trigger] is_plain(ee, revision, i) && v < result@[i]->Some_0
                        && !#[trigger] is_override_value(ee, revision, v) ==> exists|k: int|
                        0 <= k < i && is_plain(ee, revision, k) && #[trigger] result@[k] == Some(v),
            decreases n - j,
        {
            if e.variants[j].attrs.exists_at(revision) && result[j].is_none() {
                assert(is_plain(ee, revision, j as int));
                proof {
                    lemma_count_assigned_bound(result@);
                }
                let x = first_free(&used, next);
                let ghost old_used = used@;
                let ghost old_result = result@;
                proof {
                    lemma_count_assigned_update(result@, j as int, x);
                }
                used.push(x);
                result.set(j, Some(x));
                proof {
                    assert(used@ == old_used.push(x));
                    assert(!is_override_value(ee, revision, x));
                    assert forall|a: int, b: int| 0 <= a < b < j + 1 && #[trigger] is_plain(ee, revision, a) && #[trigger] is_plain(
                        ee,
                        revision,
                        b,
                    ) implies result@[a]->Some_0 < result@[b]->Some_0 by {
                        if b == j {
                            assert(old_result[a]->Some_0 < next);
                        }
                    }
                    assert forall|d: u32| #[trigger]
                        used@.contains(d) <==> (is_override_value(ee, revision, d) || exists|i: int|
                            0 <= i < j + 1 && is_plain(ee, revision, i) && #[trigger] result@[i] == Some(d)) by {
                        if used@.contains(d) && d != x {
                            let k = choose|k: int| 0 <= k < used@.len() && used@[k] == d;
                            assert(old_used[k] == d);
                            assert(old_used.contains(d));
                            if !is_override_value(ee, revision, d) {
                                let i = choose|i: int| 0 <= i < j && is_plain(ee, revision, i) && #[trigger] old_result[i] == Some(d);
                                assert(result@[i] == old_result[i]);
                            }
                        }
                        if d == x {
                            assert(used@[old_used.len() as int] == x);
                            assert(result@[j as int] == Some(x));
                        }
                        if is_override_value(ee, revision, d) {
                            assert(old_used.contains(d));
                            let k = choose|k: int| 0 <= k < old_used.len() && old_used[k] == d;
                            assert(used@[k] == d);
                        }
                        if exists|i: int| 0 <= i < j + 1 && is_plain(ee, revision, i) && #[trigger] result@[i] == Some(d) {
                            let i = choose|i: int| 0 <= i < j + 1 && is_plain(ee, revision, i) && #[trigger] result@[i] == Some(d);
                            if i < j {
                                assert(old_result[i] == result@[i]);
                                assert(old_used.contains(d));
                                let k = choose|k: int| 0 <= k < old_used.len() && old_used[k] == d;
                                assert(used@[k] == d);
                            } else {
                                assert(used@[old_used.len() as int] == x);
                            }
                        }
                    }
                    assert forall|v: u32| v < x + 1 implies used@.contains(v) by {
                        if v < x {
                            assert(old_used.contains(v));
                            let k = choose|k: int| 0 <= k < old_used.len() && old_used[k] == v;
                            assert(used@[k] == v);
                        } else {
                            assert(used@[old_used.len() as int] == x);
                        }
                    }
                    assert forall|i: int, v: u32|
                        0 <= i < j + 1 && #[trigger] is_plain(ee, revision, i) && v < result@[i]->Some_0
                            && !#[trigger] is_override_value(ee, revision, v) implies exists|k: int|
                            0 <= k < i && is_plain(ee, revision, k) && #[trigger] result@[k] == Some(v) by {
                        if i == j {
                            assert(old_used.contains(v));
                            let k = choose|k: int| 0 <= k < j && is_plain(ee, revision, k) && #[trigger] old_result[k] == Some(v);
                            assert(result@[k] == old_result[k]);
                        } else {
                            let k = choose|k: int| 0 <= k < i && is_plain(ee, revision, k) && #[trigger] old_result[k] == Some(v);
                            assert(result@[k] == old_result[k]);
                        }
                    }
                }
                proof {
                    lemma_count_assigned_bound(result@);
                    lemma_range_covered(old_used, x as nat);
                }
                next = x + 1;
            }
            j = j + 1;
        }
        Ok(result)
    }
}

/// Two assignments of discriminants to the same enum at the same revision agree on the
/// first `k` variants.
proof fn lemma_discriminants_agree(e: Enum, revision: usize, r1: Seq<Option<u32>>, r2: Seq<Option<u32>>, k: int)
    requires
        discriminants_assigned(e, revision, r1),
        discriminants_assigned(e, revision, r2),
        0 <= k <= r1.len(),
    ensures
        forall|j: int| 0 <= j < k ==> r1[j] == r2[j],
    decreases k,
{
    if k > 0 {
        lemma_discriminants_agree(e, revision, r1, r2, k - 1);
        let j = k - 1;
        if is_plain(e, revision, j) {
            let x1 = r1[j]->Some_0;
            let x2 = r2[j]->Some_0;
            if x1 < x2 {
                assert(!is_override_value(e, revision, x1));
                let i = choose|i: int| 0 <= i < j && is_plain(e, revision, i) && #[trigger] r2[i] == Some(x1);
                assert(r1[i] == r2[i]);
            } else if x2 < x1 {
                assert(!is_override_value(e, revision, x2));
                let i = choose|i: int| 0 <= i < j && is_plain(e, revision, i) && #[trigger] r1[i] == Some(x2);
                assert(r1[i] == r2[i]);
            }
        } else if !e.variants@[j].attrs.spec_exists_at(revision) {
            assert(r1[j] is None && r2[j] is None);
        } else {
            assert(override_discriminant(e, revision, j) is Some);
        }
    }
}

/// The discriminants of an enum at a revision are determined.
pub proof fn lemma_discriminants_unique(e: Enum, revision: usize, r1: Seq<Option<u32>>, r2: Seq<Option<u32>>)
    requires
        discriminants_assigned(e, revision, r1),
        discriminants_assigned(e, revision, r2),
    ensures
        r1 == r2,
{
    lemma_discriminants_agree(e, revision, r1, r2, r1.len() as int);
    assert(r1 =~= r2);
}

/// The discriminants of the variants of `e` at `revision`, by position (meaningful
/// where the overrides at `revision` do not repeat, which is when they exist).
pub open spec fn assigned_discriminants(e: Enum, revision: usize) -> Seq<Option<u32>> {
    choose|d: Seq<Option<u32>>| discriminants_assigned(e, revision, d)
}

/// Discriminants assigned at a revision are the ones [`assigned_discriminants`] names.
pub proof fn lemma_assigned_discriminants(e: Enum, revision: usize, d: Seq<Option<u32>>)
    requires
        discriminants_assigned(e, revision, d),
    ensures
        assigned_discriminants(e, revision) == d,
{
    let c = assigned_discriminants(e, revision);
    assert(discriminants_assigned(e, revision, c));
    lemma_discriminants_unique(e, revision, c, d);
}

/// The variants present at a revision get pairwise different discriminants.
pub proof fn lemma_discriminants_distinct(e: Enum, revision: usize, r: Seq<Option<u32>>)
    requires
        discriminants_assigned(e, revision, r),
        !overrides_repeat(e, revision),
    ensures
        forall|i: int, j: int|
            0 <= i < j < r.len() && (#[trigger] r[i]) is Some && (#[trigger] r[j]) is Some ==> r[i]
                != r[j],
{
    assert forall|i: int, j: int|
        0 <= i < j < r.len() && (#[trigger] r[i]) is Some && (#[trigger] r[j]) is Some implies r[i]
        != r[j] by {
        let oi = override_discriminant(e, revision, i);
        let oj = override_discriminant(e, revision, j);
        if oi is Some && oj is Some {
        } else if oi is Some {
            assert(is_plain(e, revision, j));
            assert(is_override_value(e, revision, oi->Some_0));
        } else if oj is Some {
            assert(is_plain(e, revision, i));
            assert(is_override_value(e, revision, oj->Some_0));
        } else {
            assert(is_plain(e, revision, i) && is_plain(e, revision, j));
        }
    }
}

} // verus!
