//! The options of the `#[revision(..)]` and `#[revisioned(..)]` attributes, and the
//! rules by which a list of parsed options becomes the options of a field, a variant
//! or an item.
use vstd::prelude::*;
use vstd::multiset::Multiset;
use vstd::relations::{sorted_by, total_ordering};
use vstd::seq_lib::{group_to_multiset_ensures, lemma_sorted_unique};
use vstd::std_specs::hash::group_hash_axioms;

use std::collections::HashMap;

use crate::ast::history::{
    Encoding, HistoryEntry, MapEncoding, SeqEncoding, StructEncoding,
};
use crate::ast::text::{chars_of, is_word, parse_u8, parse_u8_chars, trim, trim_bounds};

verus! {

/// Why a list of attribute options was refused.
#[derive(Debug)]
pub enum AttributeError {
    /// "tried to set an option twice"
    OptionSetTwice,
    /// "tried to set an override option twice"
    OverrideSetTwice,
    /// "missing the revision on which the override applies"
    MissingOverrideRevision,
    /// "a field can declare at most one of `indexed_map`, `indexed_seq`, `indexed_set`"
    ConflictingIndexedOptions,
    /// "setting a ending revision for a field also requires a convert_fn"
    FieldEndWithoutConvert,
    /// "setting a ending revision for a variant also requires a convert_fn"
    VariantEndWithoutConvert,
    /// "invalid `fixed(N)` size: `N` is not a u8", with the text between the brackets.
    InvalidFixedSize(String),
    /// "unknown size class", with the trimmed size text.
    UnknownSizeClass(String),
    /// "unknown encoding", with the encoding text.
    UnknownEncoding(String),
    /// A type-level `map = "indexed"`, which is not supported.
    TypeLevelIndexedMap,
    /// A type-level `seq = "indexed"`, which is not supported.
    TypeLevelIndexedSeq,
    /// "unknown map encoding", with the encoding text.
    UnknownMapEncoding(String),
    /// "unknown seq encoding", with the encoding text.
    UnknownSeqEncoding(String),
    /// "unknown struct encoding", with the encoding text.
    UnknownStructEncoding(String),
    /// `map`, `seq` or `struct` on an entry that is not `encoding = "optimised"`.
    EncodingAttributesRequireOptimised,
    /// Legacy `revision = N` mixed with `revision(N, ...)` entries on one type.
    MixedRevisionSyntax,
    /// "revision numbers must start at 1"
    RevisionZero,
    /// "duplicate revision number", with the number.
    DuplicateRevision(usize),
    /// "revisions must be contiguous starting from 1"
    NonContiguousRevisions { expected: usize, found: usize },
}

/// An [`AttributeError`] with its texts taken as sequences of characters.
pub enum AttributeErrorModel {
    OptionSetTwice,
    OverrideSetTwice,
    MissingOverrideRevision,
    ConflictingIndexedOptions,
    FieldEndWithoutConvert,
    VariantEndWithoutConvert,
    InvalidFixedSize(Seq<char>),
    UnknownSizeClass(Seq<char>),
    UnknownEncoding(Seq<char>),
    TypeLevelIndexedMap,
    TypeLevelIndexedSeq,
    UnknownMapEncoding(Seq<char>),
    UnknownSeqEncoding(Seq<char>),
    UnknownStructEncoding(Seq<char>),
    EncodingAttributesRequireOptimised,
    MixedRevisionSyntax,
    RevisionZero,
    DuplicateRevision(usize),
    NonContiguousRevisions { expected: usize, found: usize },
}

impl View for AttributeError {
    type V = AttributeErrorModel;

    open spec fn view(&self) -> AttributeErrorModel {
        match self {
            AttributeError::OptionSetTwice => AttributeErrorModel::OptionSetTwice,
            AttributeError::OverrideSetTwice => AttributeErrorModel::OverrideSetTwice,
            AttributeError::MissingOverrideRevision => AttributeErrorModel::MissingOverrideRevision,
            AttributeError::ConflictingIndexedOptions => {
                AttributeErrorModel::ConflictingIndexedOptions
            },
            AttributeError::FieldEndWithoutConvert => AttributeErrorModel::FieldEndWithoutConvert,
            AttributeError::VariantEndWithoutConvert => {
                AttributeErrorModel::VariantEndWithoutConvert
            },
            AttributeError::InvalidFixedSize(s) => AttributeErrorModel::InvalidFixedSize(s@),
            AttributeError::UnknownSizeClass(s) => AttributeErrorModel::UnknownSizeClass(s@),
            AttributeError::UnknownEncoding(s) => AttributeErrorModel::UnknownEncoding(s@),
            AttributeError::TypeLevelIndexedMap => AttributeErrorModel::TypeLevelIndexedMap,
            AttributeError::TypeLevelIndexedSeq => AttributeErrorModel::TypeLevelIndexedSeq,
            AttributeError::UnknownMapEncoding(s) => AttributeErrorModel::UnknownMapEncoding(s@),
            AttributeError::UnknownSeqEncoding(s) => AttributeErrorModel::UnknownSeqEncoding(s@),
            AttributeError::UnknownStructEncoding(s) => {
                AttributeErrorModel::UnknownStructEncoding(s@)
            },
            AttributeError::EncodingAttributesRequireOptimised => {
                AttributeErrorModel::EncodingAttributesRequireOptimised
            },
            AttributeError::MixedRevisionSyntax => AttributeErrorModel::MixedRevisionSyntax,
            AttributeError::RevisionZero => AttributeErrorModel::RevisionZero,
            AttributeError::DuplicateRevision(n) => AttributeErrorModel::DuplicateRevision(*n),
            AttributeError::NonContiguousRevisions { expected, found } => {
                AttributeErrorModel::NonContiguousRevisions { expected: *expected, found: *found }
            },
        }
    }
}

/// Whether a `Result` of the library agrees with a specified result over models.
pub open spec fn result_models<T, M>(
    r: Result<T, AttributeError>,
    spec: Result<M, AttributeErrorModel>,
    model: spec_fn(T) -> M,
) -> bool {
    match r {
        Ok(v) => spec == Ok::<M, AttributeErrorModel>(model(v)),
        Err(e) => spec == Err::<M, AttributeErrorModel>(e@),
    }
}

/// Options that are built from a list of parsed attribute options.
pub trait AttributeOptions: Sized {
    /// One parsed option.
    type Opt;

    /// What the options record.
    type Model;

    spec fn model(&self) -> Self::Model;

    /// The options that `options`, in this order, make, or why they are refused.
    spec fn spec_finish(options: Seq<Self::Opt>) -> Result<Self::Model, AttributeErrorModel>;

    /// Builds the options from the parsed `options`.
    fn finish(options: Vec<Self::Opt>) -> (r: Result<Self, AttributeError>)
        ensures
            result_models(r, Self::spec_finish(options@), |o: Self| o.model()),
    ;
}

/// Options parsed directly instead of being wrapped in `#[revision(..)]`.
pub struct Direct<O>(pub O);

impl<O: AttributeOptions> Direct<O> {
    /// The options that a directly written list of parsed options makes.
    pub fn parse(options: Vec<O::Opt>) -> (r: Result<Direct<O>, AttributeError>)
        ensures
            result_models(r, O::spec_finish(options@), |d: Direct<O>| d.0.model()),
    {
        match O::finish(options) {
            Ok(o) => Ok(Direct(o)),
            Err(e) => Err(e),
        }
    }
}

/// Whether `revision` lies in the presence range `[start, end)`, where a missing
/// start is 0 and a missing end is unbounded.
pub open spec fn present_at(start: Option<usize>, end: Option<usize>, revision: usize) -> bool {
    &&& start.unwrap_or(0) <= revision
    &&& end.unwrap_or(usize::MAX) > revision
}

fn exists_in(start: Option<usize>, end: Option<usize>, revision: usize) -> (r: bool)
    ensures
        r == present_at(start, end, revision),
{
    let lo: usize = match start {
        Some(s) => s,
        None => 0,
    };
    let hi: usize = match end {
        Some(e) => e,
        None => usize::MAX,
    };
    lo <= revision && hi > revision
}

// -----------------------------------------------------------------------------
// Field options
// -----------------------------------------------------------------------------

/// The options of a field.
#[derive(Debug)]
pub struct FieldOptions {
    pub start: Option<usize>,
    pub end: Option<usize>,
    pub convert: Option<String>,
    pub default: Option<String>,
    /// `#[revision(indexed_map)]`: the field uses the indexed-map wire format under
    /// optimised revisions.
    pub indexed_map: bool,
    /// `#[revision(indexed_seq)]`: the same, for sequence-shaped fields.
    pub indexed_seq: bool,
    /// `#[revision(indexed_set)]`: the same, for set-shaped fields.
    pub indexed_set: bool,
}

impl FieldOptions {
    /// No option set.
    pub open spec fn empty() -> FieldOptions {
        FieldOptions {
            start: None,
            end: None,
            convert: None,
            default: None,
            indexed_map: false,
            indexed_seq: false,
            indexed_set: false,
        }
    }

    pub open spec fn spec_exists_at(&self, revision: usize) -> bool {
        present_at(self.start, self.end, revision)
    }

    /// Whether the field is present at `revision`.
    pub fn exists_at(&self, revision: usize) -> (r: bool)
        ensures
            r == self.spec_exists_at(revision),
    {
        exists_in(self.start, self.end, revision)
    }
}

impl Default for FieldOptions {
    fn default() -> (r: FieldOptions)
        ensures
            r == FieldOptions::empty(),
    {
        FieldOptions {
            start: None,
            end: None,
            convert: None,
            default: None,
            indexed_map: false,
            indexed_seq: false,
            indexed_set: false,
        }
    }
}

/// One parsed option of `#[revision(..)]` on a field.
#[derive(Debug)]
pub enum FieldOption {
    Start(usize),
    End(usize),
    Convert(String),
    Default(String),
    IndexedMap,
    IndexedSeq,
    IndexedSet,
}

/// The options after `opt` is applied to `res`.
pub open spec fn field_option_step(res: FieldOptions, opt: FieldOption) -> Result<
    FieldOptions,
    AttributeErrorModel,
> {
    match opt {
        FieldOption::Start(v) => if res.start is Some {
            Err(AttributeErrorModel::OptionSetTwice)
        } else {
            Ok(FieldOptions { start: Some(v), ..res })
        },
        FieldOption::End(v) => if res.end is Some {
            Err(AttributeErrorModel::OptionSetTwice)
        } else {
            Ok(FieldOptions { end: Some(v), ..res })
        },
        FieldOption::Convert(v) => if res.convert is Some {
            Err(AttributeErrorModel::OptionSetTwice)
        } else {
            Ok(FieldOptions { convert: Some(v), ..res })
        },
        FieldOption::Default(v) => if res.default is Some {
            Err(AttributeErrorModel::OptionSetTwice)
        } else {
            Ok(FieldOptions { default: Some(v), ..res })
        },
        FieldOption::IndexedMap => if res.indexed_map {
            Err(AttributeErrorModel::OptionSetTwice)
        } else if res.indexed_seq || res.indexed_set {
            Err(AttributeErrorModel::ConflictingIndexedOptions)
        } else {
            Ok(FieldOptions { indexed_map: true, ..res })
        },
        FieldOption::IndexedSeq => if res.indexed_seq {
            Err(AttributeErrorModel::OptionSetTwice)
        } else if res.indexed_map || res.indexed_set {
            Err(AttributeErrorModel::ConflictingIndexedOptions)
        } else {
            Ok(FieldOptions { indexed_seq: true, ..res })
        },
        FieldOption::IndexedSet => if res.indexed_set {
            Err(AttributeErrorModel::OptionSetTwice)
        } else if res.indexed_map || res.indexed_seq {
            Err(AttributeErrorModel::ConflictingIndexedOptions)
        } else {
            Ok(FieldOptions { indexed_set: true, ..res })
        },
    }
}

/// The options that `options`, applied in order, give: the first refusal stops.
pub open spec fn field_options_fold(options: Seq<FieldOption>) -> Result<
    FieldOptions,
    AttributeErrorModel,
>
    decreases options.len(),
{
    if options.len() == 0 {
        Ok(FieldOptions::empty())
    } else {
        match field_options_fold(options.drop_last()) {
            Ok(res) => field_option_step(res, options.last()),
            Err(e) => Err(e),
        }
    }
}

impl AttributeOptions for FieldOptions {
    type Opt = FieldOption;

    type Model = FieldOptions;

    open spec fn model(&self) -> FieldOptions {
        *self
    }

    /// Each option applied in turn, then: an end revision needs a `convert_fn`.
    open spec fn spec_finish(options: Seq<FieldOption>) -> Result<
        FieldOptions,
        AttributeErrorModel,
    > {
        match field_options_fold(options) {
            Ok(res) => if res.end is Some && res.convert is None {
                Err(AttributeErrorModel::FieldEndWithoutConvert)
            } else {
                Ok(res)
            },
            Err(e) => Err(e),
        }
    }

    fn finish(options: Vec<FieldOption>) -> (r: Result<FieldOptions, AttributeError>) {
        let ghost opts = options@;
        let mut res = FieldOptions::default();
        for option in it: options
            invariant
                it.seq() == opts,
                field_options_fold(opts.take(it.index() as int)) == Ok::<
                    FieldOptions,
                    AttributeErrorModel,
                >(res),
        {
            proof {
                assert(opts.take(it.index() + 1).drop_last() == opts.take(it.index() as int));
            }
            match apply_field_option(res, option) {
                Ok(next) => res = next,
                Err(e) => {
                    proof {
                        lemma_field_options_fold_err(opts, it.index() + 1);
                    }
                    return Err(e);
                },
            }
        }
        assert(opts.take(opts.len() as int) == opts);
        if res.end.is_some() && res.convert.is_none() {
            return Err(AttributeError::FieldEndWithoutConvert);
        }
        Ok(res)
    }
}

/// Which of the seven options `o` is.
pub open spec fn field_option_kind(o: FieldOption) -> int {
    match o {
        FieldOption::Start(_) => 0,
        FieldOption::End(_) => 1,
        FieldOption::Convert(_) => 2,
        FieldOption::Default(_) => 3,
        FieldOption::IndexedMap => 4,
        FieldOption::IndexedSeq => 5,
        FieldOption::IndexedSet => 6,
    }
}

/// Whether some option in `options` is of kind `k`.
pub open spec fn has_field_option(options: Seq<FieldOption>, k: int) -> bool {
    exists|i: int| 0 <= i < options.len() && #[trigger] field_option_kind(options[i]) == k
}

/// No option is given twice, and at most one of the indexed options is given.
pub open spec fn field_options_distinct(options: Seq<FieldOption>) -> bool {
    forall|i: int, j: int|
        0 <= i < j < options.len() ==> {
            let ki = #[trigger] field_option_kind(options[i]);
            let kj = #[trigger] field_option_kind(options[j]);
            ki != kj && !(ki >= 4 && kj >= 4)
        }
}

proof fn lemma_field_options_fold_shape(options: Seq<FieldOption>)
    ensures
        field_options_fold(options) is Ok <==> field_options_distinct(options),
        field_options_fold(options) matches Ok(res) ==> {
            &&& res.start is Some <==> has_field_option(options, 0)
            &&& res.end is Some <==> has_field_option(options, 1)
            &&& res.convert is Some <==> has_field_option(options, 2)
            &&& res.default is Some <==> has_field_option(options, 3)
            &&& res.indexed_map <==> has_field_option(options, 4)
            &&& res.indexed_seq <==> has_field_option(options, 5)
            &&& res.indexed_set <==> has_field_option(options, 6)
        },
    decreases options.len(),
{
    if options.len() > 0 {
        let q = options.drop_last();
        let x = options.last();
        let n = q.len() as int;
        lemma_field_options_fold_shape(q);
        assert forall|k: int| has_field_option(options, k) <==> (has_field_option(q, k)
            || field_option_kind(x) == k) by {
            if has_field_option(q, k) {
                let i = choose|i: int| 0 <= i < q.len() && field_option_kind(q[i]) == k;
                assert(options[i] == q[i]);
            }
            if field_option_kind(x) == k {
                assert(options[n] == x);
            }
            if has_field_option(options, k) {
                let i = choose|i: int|
                    0 <= i < options.len() && field_option_kind(options[i]) == k;
                if i < n {
                    assert(options[i] == q[i]);
                }
            }
        }
        if field_options_distinct(options) {
            assert forall|i: int, j: int| 0 <= i < j < q.len() implies {
                let ki = #[trigger] field_option_kind(q[i]);
                let kj = #[trigger] field_option_kind(q[j]);
                ki != kj && !(ki >= 4 && kj >= 4)
            } by {
                assert(options[i] == q[i] && options[j] == q[j]);
                assert(field_option_kind(options[i]) == field_option_kind(q[i]));
                assert(field_option_kind(options[j]) == field_option_kind(q[j]));
            }
            assert forall|i: int| 0 <= i < n implies {
                let ki = field_option_kind(#[trigger] q[i]);
                let kx = field_option_kind(x);
                ki != kx && !(ki >= 4 && kx >= 4)
            } by {
                assert(options[i] == q[i] && options[n] == x);
                assert(field_option_kind(options[i]) == field_option_kind(q[i]));
                assert(field_option_kind(options[n]) == field_option_kind(x));
            }
        }
        if field_options_fold(options) is Ok {
            assert forall|i: int, j: int| 0 <= i < j < options.len() implies {
                let ki = #[trigger] field_option_kind(options[i]);
                let kj = #[trigger] field_option_kind(options[j]);
                ki != kj && !(ki >= 4 && kj >= 4)
            } by {
                assert(options[i] == q[i]);
                if j < n {
                    assert(options[j] == q[j]);
                    assert(field_option_kind(options[i]) == field_option_kind(q[i]));
                    assert(field_option_kind(options[j]) == field_option_kind(q[j]));
                } else {
                    assert(options[j] == x);
                    assert(has_field_option(q, field_option_kind(q[i])));
                }
            }
        }
        if field_options_distinct(options) && !(field_options_fold(options) is Ok) {
            assert(field_options_fold(q) is Ok);
            let k = field_option_kind(x);
            assert forall|i: int| 0 <= i < n implies field_option_kind(#[trigger] q[i]) != k
                && !(field_option_kind(q[i]) >= 4 && k >= 4) by {
                assert(options[i] == q[i] && options[n] == x);
                assert(field_option_kind(options[i]) == field_option_kind(q[i]));
                assert(field_option_kind(options[n]) == field_option_kind(x));
            }
            assert(!has_field_option(q, k));
            if k >= 4 {
                assert(!has_field_option(q, 4));
                assert(!has_field_option(q, 5));
                assert(!has_field_option(q, 6));
            }
        }
    }
}

/// A list of field options is accepted exactly when no option is given twice, at most
/// one of `indexed_map`, `indexed_seq` and `indexed_set` is given, and an end
/// revision comes with a `convert_fn`. The accepted options hold the value of each
/// option that was given, and no other.
pub proof fn lemma_field_options_accepted(options: Seq<FieldOption>)
    ensures
        FieldOptions::spec_finish(options) is Ok <==> {
            &&& field_options_distinct(options)
            &&& has_field_option(options, 1) ==> has_field_option(options, 2)
        },
        forall|i: int|
            0 <= i < options.len() && FieldOptions::spec_finish(options) is Ok ==> {
                let res = FieldOptions::spec_finish(options)->Ok_0;
                match #[trigger] options[i] {
                    FieldOption::Start(v) => res.start == Some(v),
                    FieldOption::End(v) => res.end == Some(v),
                    FieldOption::Convert(v) => res.convert == Some(v),
                    FieldOption::Default(v) => res.default == Some(v),
                    FieldOption::IndexedMap => res.indexed_map,
                    FieldOption::IndexedSeq => res.indexed_seq,
                    FieldOption::IndexedSet => res.indexed_set,
                }
            },
{
    lemma_field_options_fold_shape(options);
    assert forall|i: int|
        0 <= i < options.len() && FieldOptions::spec_finish(options) is Ok implies {
            let res = FieldOptions::spec_finish(options)->Ok_0;
            match #[trigger] options[i] {
                FieldOption::Start(v) => res.start == Some(v),
                FieldOption::End(v) => res.end == Some(v),
                FieldOption::Convert(v) => res.convert == Some(v),
                FieldOption::Default(v) => res.default == Some(v),
                FieldOption::IndexedMap => res.indexed_map,
                FieldOption::IndexedSeq => res.indexed_seq,
                FieldOption::IndexedSet => res.indexed_set,
            }
        } by {
        lemma_field_option_value(options, i);
    }
}

/// The accepted options hold the value of the option at `i`.
proof fn lemma_field_option_value(options: Seq<FieldOption>, i: int)
    requires
        0 <= i < options.len(),
        field_options_fold(options) is Ok,
    ensures
        ({
            let res = field_options_fold(options)->Ok_0;
            match options[i] {
                FieldOption::Start(v) => res.start == Some(v),
                FieldOption::End(v) => res.end == Some(v),
                FieldOption::Convert(v) => res.convert == Some(v),
                FieldOption::Default(v) => res.default == Some(v),
                FieldOption::IndexedMap => res.indexed_map,
                FieldOption::IndexedSeq => res.indexed_seq,
                FieldOption::IndexedSet => res.indexed_set,
            }
        }),
    decreases options.len(),
{
    let q = options.drop_last();
    lemma_field_options_fold_shape(q);
    if i < q.len() {
        assert(options[i] == q[i]);
        lemma_field_option_value(q, i);
    }
}

/// A refusal of a prefix of the options is the refusal of all of them.
proof fn lemma_field_options_fold_err(options: Seq<FieldOption>, k: int)
    requires
        0 <= k <= options.len(),
        field_options_fold(options.take(k)) is Err,
    ensures
        field_options_fold(options) == field_options_fold(options.take(k)),
    decreases options.len() - k,
{
    if k < options.len() {
        assert(options.take(k + 1).drop_last() == options.take(k));
        lemma_field_options_fold_err(options, k + 1);
    } else {
        assert(options.take(k) == options);
    }
}

/// `option` applied to `res`.
fn apply_field_option(res: FieldOptions, option: FieldOption) -> (r: Result<
    FieldOptions,
    AttributeError,
>)
    ensures
        result_models(r, field_option_step(res, option), |o: FieldOptions| o),
{
    let mut res = res;
    match option {
        FieldOption::Start(v) => {
            if res.start.is_some() {
                return Err(AttributeError::OptionSetTwice);
            }
            res.start = Some(v);
        },
        FieldOption::End(v) => {
            if res.end.is_some() {
                return Err(AttributeError::OptionSetTwice);
            }
            res.end = Some(v);
        },
        FieldOption::Convert(v) => {
            if res.convert.is_some() {
                return Err(AttributeError::OptionSetTwice);
            }
            res.convert = Some(v);
        },
        FieldOption::Default(v) => {
            if res.default.is_some() {
                return Err(AttributeError::OptionSetTwice);
            }
            res.default = Some(v);
        },
        FieldOption::IndexedMap => {
            if res.indexed_map {
                return Err(AttributeError::OptionSetTwice);
            }
            if res.indexed_seq || res.indexed_set {
                return Err(AttributeError::ConflictingIndexedOptions);
            }
            res.indexed_map = true;
        },
        FieldOption::IndexedSeq => {
            if res.indexed_seq {
                return Err(AttributeError::OptionSetTwice);
            }
            if res.indexed_map || res.indexed_set {
                return Err(AttributeError::ConflictingIndexedOptions);
            }
            res.indexed_seq = true;
        },
        FieldOption::IndexedSet => {
            if res.indexed_set {
                return Err(AttributeError::OptionSetTwice);
            }
            if res.indexed_map || res.indexed_seq {
                return Err(AttributeError::ConflictingIndexedOptions);
            }
            res.indexed_set = true;
        },
    }
    Ok(res)
}


// -----------------------------------------------------------------------------
// Variant options
// -----------------------------------------------------------------------------

/// Variant-level size class for optimised-encoded enums.
#[derive(Debug, Clone, Copy, PartialEq, Eq, Structural)]
pub enum VariantSize {
    Inline,
    Fixed(u8),
    Varlen,
}

/// The overrides of a variant that apply on one revision.
#[derive(Debug, Clone, Copy, PartialEq, Eq, Structural)]
pub struct VariantOverrides {
    pub revision: Option<usize>,
    pub discriminant: Option<u32>,
}

/// One parsed option inside `override(..)`.
#[derive(Debug, Clone, Copy, PartialEq, Eq, Structural)]
pub enum VariantOverride {
    Discriminant(u32),
    Revision(usize),
}

/// The options of an enum variant.
#[derive(Debug)]
pub struct VariantOptions {
    pub start: Option<usize>,
    pub end: Option<usize>,
    pub convert: Option<String>,
    pub default: Option<String>,
    pub fields_name: Option<String>,
    /// The overrides, by the revision on which they apply.
    pub overrides: HashMap<usize, VariantOverrides>,
    /// Size class declaration for optimised encoding.
    pub size: Option<VariantSize>,
}

/// What [`VariantOptions`] record, with the overrides as a map.
pub struct VariantOptionsModel {
    pub start: Option<usize>,
    pub end: Option<usize>,
    pub convert: Option<String>,
    pub default: Option<String>,
    pub fields_name: Option<String>,
    pub overrides: Map<usize, VariantOverrides>,
    pub size: Option<VariantSize>,
}

impl VariantOptionsModel {
    /// No option set.
    pub open spec fn empty() -> VariantOptionsModel {
        VariantOptionsModel {
            start: None,
            end: None,
            convert: None,
            default: None,
            fields_name: None,
            overrides: Map::empty(),
            size: None,
        }
    }
}

impl VariantOptions {
    pub open spec fn spec_exists_at(&self, revision: usize) -> bool {
        present_at(self.start, self.end, revision)
    }

    /// Whether the variant is present at `revision`.
    pub fn exists_at(&self, revision: usize) -> (r: bool)
        ensures
            r == self.spec_exists_at(revision),
    {
        exists_in(self.start, self.end, revision)
    }
}

impl Default for VariantOptions {
    fn default() -> (r: VariantOptions)
        ensures
            r.model() == VariantOptionsModel::empty(),
    {
        VariantOptions {
            start: None,
            end: None,
            convert: None,
            default: None,
            fields_name: None,
            overrides: HashMap::new(),
            size: None,
        }
    }
}

/// One parsed option of `#[revision(..)]` on a variant.
#[derive(Debug)]
pub enum VariantOption {
    Start(usize),
    End(usize),
    Convert(String),
    Default(String),
    Fields(String),
    Override(Vec<VariantOverride>),
    Size(String),
}

/// The overrides that the options of one `override(..)` give, in order.
pub open spec fn overrides_fold(options: Seq<VariantOverride>) -> Result<
    VariantOverrides,
    AttributeErrorModel,
>
    decreases options.len(),
{
    if options.len() == 0 {
        Ok(VariantOverrides { revision: None, discriminant: None })
    } else {
        match overrides_fold(options.drop_last()) {
            Err(e) => Err(e),
            Ok(o) => match options.last() {
                VariantOverride::Discriminant(d) => if o.discriminant is Some {
                    Err(AttributeErrorModel::OverrideSetTwice)
                } else {
                    Ok(VariantOverrides { discriminant: Some(d), ..o })
                },
                VariantOverride::Revision(r) => if o.revision is Some {
                    Err(AttributeErrorModel::OverrideSetTwice)
                } else {
                    Ok(VariantOverrides { revision: Some(r), ..o })
                },
            },
        }
    }
}

/// The size class that the text `raw` of `size = ".."` names: `inline`, `varlen` or
/// `fixed(N)` with `N` a `u8`, around which whitespace is ignored.
pub open spec fn spec_parse_variant_size(raw: Seq<char>) -> Result<VariantSize, AttributeErrorModel> {
    let s = trim(raw);
    if s == seq!['i', 'n', 'l', 'i', 'n', 'e'] {
        Ok(VariantSize::Inline)
    } else if s == seq!['v', 'a', 'r', 'l', 'e', 'n'] {
        Ok(VariantSize::Varlen)
    } else if s.len() >= 7 && s.take(6) == seq!['f', 'i', 'x', 'e', 'd', '('] && s.last() == ')' {
        let num = s.subrange(6, s.len() - 1);
        match parse_u8(trim(num)) {
            Some(n) => Ok(VariantSize::Fixed(n)),
            None => Err(AttributeErrorModel::InvalidFixedSize(num)),
        }
    } else {
        Err(AttributeErrorModel::UnknownSizeClass(s))
    }
}

/// Parses `"inline"`, `"varlen"`, or `"fixed(N)"` into a [`VariantSize`].
pub fn parse_variant_size(lit: &str) -> (r: Result<VariantSize, AttributeError>)
    ensures
        result_models(r, spec_parse_variant_size(lit@), |z: VariantSize| z),
{
    let chars = chars_of(lit);
    let (lo, hi) = trim_bounds(&chars, 0, chars.len());
    assert(chars@.subrange(0, chars@.len() as int) == lit@);
    let ghost s = chars@.subrange(lo as int, hi as int);
    proof {
        reveal_strlit("inline");
        reveal_strlit("varlen");
        reveal_strlit("fixed(");
        assert("inline"@ =~= seq!['i', 'n', 'l', 'i', 'n', 'e']);
        assert("varlen"@ =~= seq!['v', 'a', 'r', 'l', 'e', 'n']);
        assert("fixed("@ =~= seq!['f', 'i', 'x', 'e', 'd', '(']);
    }
    if is_word(&chars, lo, hi, "inline") {
        return Ok(VariantSize::Inline);
    }
    if is_word(&chars, lo, hi, "varlen") {
        return Ok(VariantSize::Varlen);
    }
    if hi - lo >= 7 && is_word(&chars, lo, lo + 6, "fixed(") && chars[hi - 1] == ')' {
        assert(s.take(6) == chars@.subrange(lo as int, lo + 6));
        let (nlo, nhi) = trim_bounds(&chars, lo + 6, hi - 1);
        assert(s.subrange(6, s.len() - 1) == chars@.subrange(lo + 6, hi - 1));
        match parse_u8_chars(&chars, nlo, nhi) {
            Some(n) => return Ok(VariantSize::Fixed(n)),
            None => {
                let num = lit.substring_char(lo + 6, hi - 1).to_owned();
                return Err(AttributeError::InvalidFixedSize(num));
            },
        }
    }
    if hi - lo >= 7 {
        assert(!(s.take(6) == seq!['f', 'i', 'x', 'e', 'd', '('] && s.last() == ')')) by {
            if s.take(6) == seq!['f', 'i', 'x', 'e', 'd', '('] {
                assert(s.take(6) == chars@.subrange(lo as int, lo + 6));
            }
        }
    }
    Err(AttributeError::UnknownSizeClass(lit.substring_char(lo, hi).to_owned()))
}

/// The options after `opt` is applied to `res`.
pub open spec fn variant_option_step(res: VariantOptionsModel, opt: VariantOption) -> Result<
    VariantOptionsModel,
    AttributeErrorModel,
> {
    match opt {
        VariantOption::Start(v) => if res.start is Some {
            Err(AttributeErrorModel::OptionSetTwice)
        } else {
            Ok(VariantOptionsModel { start: Some(v), ..res })
        },
        VariantOption::End(v) => if res.end is Some {
            Err(AttributeErrorModel::OptionSetTwice)
        } else {
            Ok(VariantOptionsModel { end: Some(v), ..res })
        },
        VariantOption::Convert(v) => if res.convert is Some {
            Err(AttributeErrorModel::OptionSetTwice)
        } else {
            Ok(VariantOptionsModel { convert: Some(v), ..res })
        },
        VariantOption::Default(v) => if res.default is Some {
            Err(AttributeErrorModel::OptionSetTwice)
        } else {
            Ok(VariantOptionsModel { default: Some(v), ..res })
        },
        VariantOption::Fields(v) => if res.fields_name is Some {
            Err(AttributeErrorModel::OptionSetTwice)
        } else {
            Ok(VariantOptionsModel { fields_name: Some(v), ..res })
        },
        VariantOption::Size(v) => if res.size is Some {
            Err(AttributeErrorModel::OptionSetTwice)
        } else {
            match spec_parse_variant_size(v@) {
                Ok(z) => Ok(VariantOptionsModel { size: Some(z), ..res }),
                Err(e) => Err(e),
            }
        },
        VariantOption::Override(list) => match overrides_fold(list@) {
            Err(e) => Err(e),
            Ok(o) => match o.revision {
                None => Err(AttributeErrorModel::MissingOverrideRevision),
                Some(r) => Ok(VariantOptionsModel { overrides: res.overrides.insert(r, o), ..res }),
            },
        },
    }
}

/// The options that `options`, applied in order, give: the first refusal stops.
pub open spec fn variant_options_fold(options: Seq<VariantOption>) -> Result<
    VariantOptionsModel,
    AttributeErrorModel,
>
    decreases options.len(),
{
    if options.len() == 0 {
        Ok(VariantOptionsModel::empty())
    } else {
        match variant_options_fold(options.drop_last()) {
            Ok(res) => variant_option_step(res, options.last()),
            Err(e) => Err(e),
        }
    }
}

/// A refusal of a prefix of the options is the refusal of all of them.
proof fn lemma_variant_options_fold_err(options: Seq<VariantOption>, k: int)
    requires
        0 <= k <= options.len(),
        variant_options_fold(options.take(k)) is Err,
    ensures
        variant_options_fold(options) == variant_options_fold(options.take(k)),
    decreases options.len() - k,
{
    if k < options.len() {
        assert(options.take(k + 1).drop_last() == options.take(k));
        lemma_variant_options_fold_err(options, k + 1);
    } else {
        assert(options.take(k) == options);
    }
}

/// The overrides of one `override(..)`.
fn gather_overrides(list: Vec<VariantOverride>) -> (r: Result<VariantOverrides, AttributeError>)
    ensures
        result_models(r, overrides_fold(list@), |o: VariantOverrides| o),
{
    let ghost opts = list@;
    let mut o = VariantOverrides { revision: None, discriminant: None };
    let mut i: usize = 0;
    while i < list.len()
        invariant
            opts == list@,
            i <= list.len(),
            overrides_fold(opts.take(i as int)) == Ok::<VariantOverrides, AttributeErrorModel>(o),
        decreases list.len() - i,
    {
        assert(opts.take(i + 1).drop_last() == opts.take(i as int));
        match list[i] {
            VariantOverride::Discriminant(d) => {
                if o.discriminant.is_some() {
                    proof {
                        lemma_overrides_fold_err(opts, i + 1);
                    }
                    return Err(AttributeError::OverrideSetTwice);
                }
                o.discriminant = Some(d);
            },
            VariantOverride::Revision(r) => {
                if o.revision.is_some() {
                    proof {
                        lemma_overrides_fold_err(opts, i + 1);
                    }
                    return Err(AttributeError::OverrideSetTwice);
                }
                o.revision = Some(r);
            },
        }
        i = i + 1;
    }
    assert(opts.take(opts.len() as int) == opts);
    Ok(o)
}

/// A refusal of a prefix of the overrides is the refusal of all of them.
proof fn lemma_overrides_fold_err(options: Seq<VariantOverride>, k: int)
    requires
        0 <= k <= options.len(),
        overrides_fold(options.take(k)) is Err,
    ensures
        overrides_fold(options) == overrides_fold(options.take(k)),
    decreases options.len() - k,
{
    if k < options.len() {
        assert(options.take(k + 1).drop_last() == options.take(k));
        lemma_overrides_fold_err(options, k + 1);
    } else {
        assert(options.take(k) == options);
    }
}

/// `option` applied to `res`.
fn apply_variant_option(res: &mut VariantOptions, option: VariantOption) -> (r: Result<
    (),
    AttributeError,
>)
    ensures
        match r {
            Ok(_) => variant_option_step(old(res).model(), option) == Ok::<
                VariantOptionsModel,
                AttributeErrorModel,
            >(final(res).model()),
            Err(e) => variant_option_step(old(res).model(), option) == Err::<
                VariantOptionsModel,
                AttributeErrorModel,
            >(e@),
        },
{
    broadcast use group_hash_axioms;

    match option {
        VariantOption::Start(v) => {
            if res.start.is_some() {
                return Err(AttributeError::OptionSetTwice);
            }
            res.start = Some(v);
        },
        VariantOption::End(v) => {
            if res.end.is_some() {
                return Err(AttributeError::OptionSetTwice);
            }
            res.end = Some(v);
        },
        VariantOption::Convert(v) => {
            if res.convert.is_some() {
                return Err(AttributeError::OptionSetTwice);
            }
            res.convert = Some(v);
        },
        VariantOption::Default(v) => {
            if res.default.is_some() {
                return Err(AttributeError::OptionSetTwice);
            }
            res.default = Some(v);
        },
        VariantOption::Fields(v) => {
            if res.fields_name.is_some() {
                return Err(AttributeError::OptionSetTwice);
            }
            res.fields_name = Some(v);
        },
        VariantOption::Size(v) => {
            if res.size.is_some() {
                return Err(AttributeError::OptionSetTwice);
            }
            match parse_variant_size(v.as_str()) {
                Ok(z) => res.size = Some(z),
                Err(e) => return Err(e),
            }
        },
        VariantOption::Override(list) => {
            match gather_overrides(list) {
                Err(e) => return Err(e),
                Ok(o) => match o.revision {
                    None => return Err(AttributeError::MissingOverrideRevision),
                    Some(r) => {
                        res.overrides.insert(r, o);
                    },
                },
            }
        },
    }
    Ok(())
}

impl AttributeOptions for VariantOptions {
    type Opt = VariantOption;

    type Model = VariantOptionsModel;

    open spec fn model(&self) -> VariantOptionsModel {
        VariantOptionsModel {
            start: self.start,
            end: self.end,
            convert: self.convert,
            default: self.default,
            fields_name: self.fields_name,
            overrides: self.overrides@,
            size: self.size,
        }
    }

    /// Each option applied in turn, then: an end revision needs a `convert_fn`.
    open spec fn spec_finish(options: Seq<VariantOption>) -> Result<
        VariantOptionsModel,
        AttributeErrorModel,
    > {
        match variant_options_fold(options) {
            Ok(res) => if res.end is Some && res.convert is None {
                Err(AttributeErrorModel::VariantEndWithoutConvert)
            } else {
                Ok(res)
            },
            Err(e) => Err(e),
        }
    }

    fn finish(options: Vec<VariantOption>) -> (r: Result<VariantOptions, AttributeError>) {
        let ghost opts = options@;
        let mut res = VariantOptions::default();
        for option in it: options
            invariant
                it.seq() == opts,
                variant_options_fold(opts.take(it.index() as int)) == Ok::<
                    VariantOptionsModel,
                    AttributeErrorModel,
                >(res.model()),
        {
            proof {
                assert(opts.take(it.index() + 1).drop_last() == opts.take(it.index() as int));
            }
            match apply_variant_option(&mut res, option) {
                Ok(()) => {},
                Err(e) => {
                    proof {
                        lemma_variant_options_fold_err(opts, it.index() + 1);
                    }
                    return Err(e);
                },
            }
        }
        assert(opts.take(opts.len() as int) == opts);
        if res.end.is_some() && res.convert.is_none() {
            return Err(AttributeError::VariantEndWithoutConvert);
        }
        Ok(res)
    }
}


// -----------------------------------------------------------------------------
// Item options and the revision history
// -----------------------------------------------------------------------------

/// Whether the text `s` is exactly `lit`.
fn text_is(s: &String, lit: &str) -> (r: bool)
    ensures
        r == (s@ == lit@),
{
    *s == lit.to_owned()
}

/// One option inside `revision(N, ...)`.
#[derive(Debug)]
pub enum RevisionEntryOption {
    Encoding(String),
    MapKind(String),
    SeqKind(String),
    StructKind(String),
}

/// Parsed `revision(N, encoding = "...", map = "...", seq = "...", struct = "...")`.
#[derive(Debug)]
pub struct RevisionEntryGroup {
    pub revision: usize,
    pub options: Vec<RevisionEntryOption>,
}

/// The entry, and whether an `encoding` was named, after `opt` is applied.
pub open spec fn entry_option_step(acc: (HistoryEntry, bool), opt: RevisionEntryOption) -> Result<
    (HistoryEntry, bool),
    AttributeErrorModel,
> {
    let (entry, saw) = acc;
    match opt {
        RevisionEntryOption::Encoding(v) => if v@ == "legacy"@ {
            Ok((HistoryEntry { encoding: Encoding::Legacy, ..entry }, true))
        } else if v@ == "optimised"@ {
            Ok((HistoryEntry { encoding: Encoding::Optimised, ..entry }, true))
        } else {
            Err(AttributeErrorModel::UnknownEncoding(v@))
        },
        RevisionEntryOption::MapKind(v) => if v@ == "default"@ {
            Ok((HistoryEntry { map: MapEncoding::Default, ..entry }, saw))
        } else if v@ == "indexed"@ {
            Err(AttributeErrorModel::TypeLevelIndexedMap)
        } else {
            Err(AttributeErrorModel::UnknownMapEncoding(v@))
        },
        RevisionEntryOption::SeqKind(v) => if v@ == "default"@ {
            Ok((HistoryEntry { seq: SeqEncoding::Default, ..entry }, saw))
        } else if v@ == "indexed"@ {
            Err(AttributeErrorModel::TypeLevelIndexedSeq)
        } else {
            Err(AttributeErrorModel::UnknownSeqEncoding(v@))
        },
        RevisionEntryOption::StructKind(v) => if v@ == "default"@ {
            Ok((HistoryEntry { struct_kind: StructEncoding::Default, ..entry }, saw))
        } else if v@ == "indexed"@ {
            Ok((HistoryEntry { struct_kind: StructEncoding::Indexed, ..entry }, saw))
        } else {
            Err(AttributeErrorModel::UnknownStructEncoding(v@))
        },
    }
}

/// The options of one entry applied in order to the legacy entry for `revision`.
pub open spec fn entry_options_fold(revision: usize, options: Seq<RevisionEntryOption>) -> Result<
    (HistoryEntry, bool),
    AttributeErrorModel,
>
    decreases options.len(),
{
    if options.len() == 0 {
        Ok((HistoryEntry::spec_legacy(revision, false), false))
    } else {
        match entry_options_fold(revision, options.drop_last()) {
            Ok(acc) => entry_option_step(acc, options.last()),
            Err(e) => Err(e),
        }
    }
}


/// Whether `options` name one of the encoding-specific options (`map`, `seq`,
/// `struct`), whatever its value.
pub open spec fn names_encoding_specific(options: Seq<RevisionEntryOption>) -> bool {
    exists|i: int| 0 <= i < options.len() && !(#[trigger] options[i] is Encoding)
}
/// The history entry that `revision(N, ...)` describes: its options applied in turn,
/// then `map`, `seq` and `struct` choices are refused on an entry that does not name
/// `encoding = "optimised"`.
pub open spec fn spec_build_history_entry(group: RevisionEntryGroup) -> Result<
    HistoryEntry,
    AttributeErrorModel,
> {
    match entry_options_fold(group.revision, group.options@) {
        Err(e) => Err(e),
        Ok((entry, saw)) => if (!saw || entry.encoding == Encoding::Legacy)
            && names_encoding_specific(group.options@) {
            Err(AttributeErrorModel::EncodingAttributesRequireOptimised)
        } else {
            Ok(entry)
        },
    }
}

proof fn lemma_entry_options_fold_err(revision: usize, options: Seq<RevisionEntryOption>, k: int)
    requires
        0 <= k <= options.len(),
        entry_options_fold(revision, options.take(k)) is Err,
    ensures
        entry_options_fold(revision, options) == entry_options_fold(revision, options.take(k)),
    decreases options.len() - k,
{
    if k < options.len() {
        assert(options.take(k + 1).drop_last() == options.take(k));
        lemma_entry_options_fold_err(revision, options, k + 1);
    } else {
        assert(options.take(k) == options);
    }
}

/// `opt` applied to the entry under construction.
fn apply_entry_option(acc: (HistoryEntry, bool), opt: RevisionEntryOption) -> (r: Result<
    (HistoryEntry, bool),
    AttributeError,
>)
    ensures
        result_models(r, entry_option_step(acc, opt), |x: (HistoryEntry, bool)| x),
{
    let (mut entry, saw) = acc;
    match opt {
        RevisionEntryOption::Encoding(v) => {
            if text_is(&v, "legacy") {
                entry.encoding = Encoding::Legacy;
                Ok((entry, true))
            } else if text_is(&v, "optimised") {
                entry.encoding = Encoding::Optimised;
                Ok((entry, true))
            } else {
                Err(AttributeError::UnknownEncoding(v))
            }
        },
        RevisionEntryOption::MapKind(v) => {
            if text_is(&v, "default") {
                entry.map = MapEncoding::Default;
                Ok((entry, saw))
            } else if text_is(&v, "indexed") {
                Err(AttributeError::TypeLevelIndexedMap)
            } else {
                Err(AttributeError::UnknownMapEncoding(v))
            }
        },
        RevisionEntryOption::SeqKind(v) => {
            if text_is(&v, "default") {
                entry.seq = SeqEncoding::Default;
                Ok((entry, saw))
            } else if text_is(&v, "indexed") {
                Err(AttributeError::TypeLevelIndexedSeq)
            } else {
                Err(AttributeError::UnknownSeqEncoding(v))
            }
        },
        RevisionEntryOption::StructKind(v) => {
            if text_is(&v, "default") {
                entry.struct_kind = StructEncoding::Default;
                Ok((entry, saw))
            } else if text_is(&v, "indexed") {
                entry.struct_kind = StructEncoding::Indexed;
                Ok((entry, saw))
            } else {
                Err(AttributeError::UnknownStructEncoding(v))
            }
        },
    }
}

/// Builds the history entry of one `revision(N, ...)`.
pub fn build_history_entry(group: RevisionEntryGroup) -> (r: Result<HistoryEntry, AttributeError>)
    ensures
        result_models(r, spec_build_history_entry(group), |h: HistoryEntry| h),
{
    let ghost g = group;
    let revision = group.revision;
    let mut entry = HistoryEntry::legacy(revision, false);
    let mut saw_encoding = false;
    let mut specific = false;
    for opt in it: group.options
        invariant
            it.seq() == g.options@,
            g == group,
            revision == g.revision,
            specific == names_encoding_specific(g.options@.take(it.index() as int)),
            entry_options_fold(revision, g.options@.take(it.index() as int)) == Ok::<
                (HistoryEntry, bool),
                AttributeErrorModel,
            >((entry, saw_encoding)),
    {
        let ghost opts = g.options@;
        proof {
            assert(opts.take(it.index() + 1).drop_last() == opts.take(it.index() as int));
            assert(opts.take(it.index() + 1).last() == opt);
        }
        let this_specific = match &opt {
            RevisionEntryOption::Encoding(_) => false,
            _ => true,
        };
        proof {
            let t0 = opts.take(it.index() as int);
            let t1 = opts.take(it.index() + 1);
            if names_encoding_specific(t0) {
                let w = choose|w: int| 0 <= w < t0.len() && !(#[trigger] t0[w] is Encoding);
                assert(t1[w] == t0[w]);
            }
            if this_specific {
                assert(!(t1[it.index() as int] is Encoding));
            }
            if names_encoding_specific(t1) && !this_specific {
                let w = choose|w: int| 0 <= w < t1.len() && !(#[trigger] t1[w] is Encoding);
                assert(w < t0.len());
                assert(t0[w] == t1[w]);
            }
        }
        specific = specific || this_specific;
        match apply_entry_option((entry, saw_encoding), opt) {
            Ok((e, saw)) => {
                entry = e;
                saw_encoding = saw;
            },
            Err(e) => {
                proof {
                    lemma_entry_options_fold_err(revision, opts, it.index() + 1);
                }
                return Err(e);
            },
        }
    }
    assert(g.options@.take(g.options@.len() as int) == g.options@);
    if (!saw_encoding || entry.encoding == Encoding::Legacy) && specific {
        return Err(AttributeError::EncodingAttributesRequireOptimised);
    }
    Ok(entry)
}



/// The revision numbers of `entries`, in their order.
pub open spec fn revision_numbers(entries: Seq<HistoryEntry>) -> Seq<int> {
    entries.map_values(|e: HistoryEntry| e.revision as int)
}

/// The first refusal met when the ascending revision numbers `sorted` are checked,
/// from position `idx` on, to be 1, 2, 3, ...: a number equal to the one before it is
/// a duplicate, any other mismatch breaks contiguity.
pub open spec fn contiguity_error(sorted: Seq<int>, idx: nat) -> Option<AttributeErrorModel>
    decreases sorted.len() - idx,
{
    if idx >= sorted.len() {
        None
    } else if sorted[idx as int] != idx + 1 {
        if idx > 0 && sorted[idx as int] == sorted[idx - 1] {
            Some(AttributeErrorModel::DuplicateRevision(sorted[idx as int] as usize))
        } else {
            Some(
                AttributeErrorModel::NonContiguousRevisions {
                    expected: (idx + 1) as usize,
                    found: sorted[idx as int] as usize,
                },
            )
        }
    } else {
        contiguity_error(sorted, idx + 1)
    }
}

/// Whether `h` holds the entries of `entries`, each as often, with the revisions
/// 1, 2, 3, ... in this order.
pub open spec fn arranged_history(entries: Seq<HistoryEntry>, h: Seq<HistoryEntry>) -> bool {
    &&& h.to_multiset() == entries.to_multiset()
    &&& forall|i: int| 0 <= i < h.len() ==> #[trigger] h[i].revision == i + 1
}

/// The history that `revision = n` stands for: legacy entries for 1 to `n`.
pub open spec fn legacy_history(n: usize) -> Seq<HistoryEntry> {
    Seq::new(n as nat, |i: int| HistoryEntry::spec_legacy((i + 1) as usize, true))
}

/// The history of a type: from a legacy `revision = N`, or from the new-style entries
/// put in order of revision, which must then be exactly 1, 2, ..., n.
pub open spec fn spec_resolve_history(
    legacy_revision: Option<usize>,
    entries: Seq<HistoryEntry>,
) -> Result<Seq<HistoryEntry>, AttributeErrorModel> {
    match legacy_revision {
        Some(n) => if entries.len() > 0 {
            Err(AttributeErrorModel::MixedRevisionSyntax)
        } else if n == 0 {
            Err(AttributeErrorModel::RevisionZero)
        } else {
            Ok(legacy_history(n))
        },
        None => if entries.len() == 0 {
            Ok(Seq::empty())
        } else {
            match contiguity_error(revision_numbers(entries).sort(), 0) {
                Some(e) => Err(e),
                None => Ok(choose|h: Seq<HistoryEntry>| arranged_history(entries, h)),
            }
        },
    }
}

/// Two arrangements of the same entries with revisions 1, 2, 3, ... are the same.
proof fn lemma_arranged_unique(entries: Seq<HistoryEntry>, h1: Seq<HistoryEntry>, h2: Seq<HistoryEntry>)
    requires
        arranged_history(entries, h1),
        arranged_history(entries, h2),
    ensures
        h1 == h2,
{
    broadcast use group_to_multiset_ensures;

    assert(h1.to_multiset().len() == h2.to_multiset().len());
    assert(h1.len() == h2.len());
    assert forall|i: int| 0 <= i < h1.len() implies h1[i] == h2[i] by {
        assert(h1.contains(h1[i]));
        assert(h2.to_multiset().count(h1[i]) > 0);
        assert(h2.contains(h1[i]));
        let j = choose|j: int| 0 <= j < h2.len() && h2[j] == h1[i];
        assert(h2[j].revision == j + 1);
    }
    assert(h1 =~= h2);
}

/// `entries` in ascending order of revision; entries with equal revisions keep their
/// order.
fn sort_by_revision(entries: Vec<HistoryEntry>) -> (r: Vec<HistoryEntry>)
    ensures
        r@.to_multiset() == entries@.to_multiset(),
        revision_numbers(r@).to_multiset() == revision_numbers(entries@).to_multiset(),
        forall|i: int, j: int| 0 <= i <= j < r.len() ==> r@[i].revision <= r@[j].revision,
{
    broadcast use group_to_multiset_ensures;
    broadcast use vstd::multiset::group_multiset_axioms;

    let ghost all = entries@;
    let mut rest = entries;
    let mut sorted: Vec<HistoryEntry> = Vec::new();
    assert(sorted@.to_multiset() =~= Multiset::empty());
    assert(revision_numbers(sorted@) =~= Seq::<int>::empty());
    assert(revision_numbers(sorted@).to_multiset() =~= Multiset::empty());
    while rest.len() > 0
        invariant
            sorted@.to_multiset().add(rest@.to_multiset()) == all.to_multiset(),
            revision_numbers(sorted@).to_multiset().add(revision_numbers(rest@).to_multiset())
                == revision_numbers(all).to_multiset(),
            forall|i: int, j: int|
                0 <= i <= j < sorted.len() ==> sorted@[i].revision <= sorted@[j].revision,
            forall|i: int, j: int|
                0 <= i < sorted.len() && 0 <= j < rest.len() ==> sorted@[i].revision
                    <= rest@[j].revision,
        decreases rest.len(),
    {
        let mut m: usize = 0;
        let mut k: usize = 1;
        while k < rest.len()
            invariant
                m < k <= rest.len(),
                forall|j: int| 0 <= j < k ==> rest@[m as int].revision <= rest@[j].revision,
            decreases rest.len() - k,
        {
            if rest[k].revision < rest[m].revision {
                m = k;
            }
            k = k + 1;
        }
        let ghost old_rest = rest@;
        let ghost old_sorted = sorted@;
        let e = rest.remove(m);
        sorted.push(e);
        proof {
            assert(sorted@ == old_sorted.push(e));
            assert(rest@ == old_rest.remove(m as int));
            assert(old_rest[m as int] == e);
            assert(old_rest.contains(e));
            vstd::seq_lib::to_multiset_contains(old_rest, e);
            vstd::seq_lib::to_multiset_build(old_sorted, e);
            vstd::seq_lib::to_multiset_remove(old_rest, m as int);
            let rs = revision_numbers(old_rest);
            let ss = revision_numbers(old_sorted);
            assert(rs[m as int] == e.revision as int);
            assert(rs.contains(e.revision as int));
            vstd::seq_lib::to_multiset_contains(rs, e.revision as int);
            vstd::seq_lib::to_multiset_build(ss, e.revision as int);
            vstd::seq_lib::to_multiset_remove(rs, m as int);
            assert(revision_numbers(old_rest.remove(m as int)) =~= revision_numbers(
                old_rest,
            ).remove(m as int));
            assert(revision_numbers(old_sorted.push(e)) =~= revision_numbers(old_sorted).push(
                e.revision as int,
            ));
            assert(revision_numbers(old_rest)[m as int] == e.revision as int);
            assert(sorted@.to_multiset().add(rest@.to_multiset()) =~= all.to_multiset());
            assert(revision_numbers(sorted@).to_multiset().add(
                revision_numbers(rest@).to_multiset(),
            ) =~= revision_numbers(all).to_multiset());
            assert forall|i: int, j: int|
                0 <= i < sorted.len() && 0 <= j < rest.len() implies sorted@[i].revision
                <= rest@[j].revision by {
                if j < m {
                    assert(rest@[j] == old_rest[j]);
                } else {
                    assert(rest@[j] == old_rest[j + 1]);
                }
            }
        }
    }
    assert(rest@.to_multiset() =~= Multiset::empty());
    assert(revision_numbers(rest@).to_multiset() =~= Multiset::empty());
    assert(sorted@.to_multiset() =~= all.to_multiset());
    assert(revision_numbers(sorted@).to_multiset() =~= revision_numbers(all).to_multiset());
    sorted
}

/// Combines a legacy `revision = N` and new-style `revision(N, ...)` entries into a
/// validated history. With neither, the history is empty.
pub fn resolve_history(legacy_revision: Option<usize>, new_entries: Vec<HistoryEntry>) -> (r:
    Result<Vec<HistoryEntry>, AttributeError>)
    ensures
        result_models(
            r,
            spec_resolve_history(legacy_revision, new_entries@),
            |h: Vec<HistoryEntry>| h@,
        ),
        r matches Ok(h) ==> forall|i: int| 0 <= i < h.len() ==> #[trigger] h@[i].revision == i + 1,
{
    match legacy_revision {
        Some(n) => {
            if new_entries.len() > 0 {
                return Err(AttributeError::MixedRevisionSyntax);
            }
            if n == 0 {
                return Err(AttributeError::RevisionZero);
            }
            let mut history: Vec<HistoryEntry> = Vec::new();
            let mut i: usize = 0;
            while i < n
                invariant
                    i <= n,
                    history@ == legacy_history(n).take(i as int),
                decreases n - i,
            {
                history.push(HistoryEntry::legacy(i + 1, true));
                i = i + 1;
                assert(history@ == legacy_history(n).take(i as int));
            }
            assert(legacy_history(n).take(n as int) == legacy_history(n));
            Ok(history)
        },
        None => {
            if new_entries.len() == 0 {
                assert(new_entries@ =~= Seq::<HistoryEntry>::empty());
                return Ok(new_entries);
            }
            let ghost entries = new_entries@;
            let sorted = sort_by_revision(new_entries);
            let ghost s = revision_numbers(sorted@);
            proof {
                let leq = |x: int, y: int| x <= y;
                revision_numbers(entries).lemma_sort_ensures();
                assert(total_ordering(leq));
                assert(sorted_by(s, leq));
                lemma_sorted_unique(s, revision_numbers(entries).sort(), leq);
            }
            let mut idx: usize = 0;
            while idx < sorted.len()
                invariant
                    idx <= sorted.len(),
                    entries == new_entries@,
                    entries.len() > 0,
                    legacy_revision is None,
                    s == revision_numbers(sorted@),
                    s == revision_numbers(entries).sort(),
                    contiguity_error(s, 0) == contiguity_error(s, idx as nat),
                    forall|j: int| 0 <= j < idx ==> #[trigger] sorted@[j].revision == j + 1,
                decreases sorted.len() - idx,
            {
                let rev = sorted[idx].revision;
                assert(s[idx as int] == rev as int);
                if idx > 0 {
                    assert(s[idx - 1] == sorted@[idx - 1].revision as int);
                }
                if rev != idx + 1 {
                    if idx > 0 && rev == sorted[idx - 1].revision {
                        return Err(AttributeError::DuplicateRevision(rev));
                    }
                    return Err(AttributeError::NonContiguousRevisions { expected: idx + 1, found: rev });
                }
                idx = idx + 1;
            }
            proof {
                assert(arranged_history(entries, sorted@));
                let h = choose|h: Seq<HistoryEntry>| arranged_history(entries, h);
                lemma_arranged_unique(entries, h, sorted@);
            }
            Ok(sorted)
        },
    }
}



/// The options of a `#[revisioned(..)]` item.
#[derive(Debug)]
pub struct ItemOptions {
    /// The latest revision of the history, if there is one.
    pub revision: Option<usize>,
    /// The resolved revision history: from a legacy `revision = N`, or from the
    /// new-style `revision(N, ...)` entries.
    pub history: Vec<HistoryEntry>,
    pub serialize: bool,
    pub deserialize: bool,
    pub skip: Option<bool>,
    pub walk: Option<bool>,
}

/// What [`ItemOptions`] record.
pub struct ItemOptionsModel {
    pub revision: Option<usize>,
    pub history: Seq<HistoryEntry>,
    pub serialize: bool,
    pub deserialize: bool,
    pub skip: Option<bool>,
    pub walk: Option<bool>,
}

/// One parsed option of `#[revisioned(..)]`.
#[derive(Debug)]
pub enum ItemOption {
    /// Legacy `revision = N`.
    Revision(usize),
    /// New-style `revision(N, ...)`.
    RevisionEntry(RevisionEntryGroup),
    Serialize(bool),
    Deserialize(bool),
    Skip(bool),
    Walk(bool),
}

/// The item options gathered so far, before the history is resolved.
pub struct ItemOptionsDraft {
    pub legacy_revision: Option<usize>,
    pub entries: Seq<HistoryEntry>,
    pub serialize: bool,
    pub deserialize: bool,
    pub skip: Option<bool>,
    pub walk: Option<bool>,
}

/// The draft after `opt` is applied to `d`.
pub open spec fn item_option_step(d: ItemOptionsDraft, opt: ItemOption) -> Result<
    ItemOptionsDraft,
    AttributeErrorModel,
> {
    match opt {
        ItemOption::Revision(n) => if d.legacy_revision is Some {
            Err(AttributeErrorModel::OptionSetTwice)
        } else {
            Ok(ItemOptionsDraft { legacy_revision: Some(n), ..d })
        },
        ItemOption::RevisionEntry(group) => match spec_build_history_entry(group) {
            Ok(entry) => Ok(ItemOptionsDraft { entries: d.entries.push(entry), ..d }),
            Err(e) => Err(e),
        },
        ItemOption::Serialize(b) => Ok(ItemOptionsDraft { serialize: b, ..d }),
        ItemOption::Deserialize(b) => Ok(ItemOptionsDraft { deserialize: b, ..d }),
        ItemOption::Skip(b) => if d.skip is Some {
            Err(AttributeErrorModel::OptionSetTwice)
        } else {
            Ok(ItemOptionsDraft { skip: Some(b), ..d })
        },
        ItemOption::Walk(b) => if d.walk is Some {
            Err(AttributeErrorModel::OptionSetTwice)
        } else {
            Ok(ItemOptionsDraft { walk: Some(b), ..d })
        },
    }
}

/// The draft that `options`, applied in order, give: the first refusal stops.
pub open spec fn item_options_fold(options: Seq<ItemOption>) -> Result<
    ItemOptionsDraft,
    AttributeErrorModel,
>
    decreases options.len(),
{
    if options.len() == 0 {
        Ok(
            ItemOptionsDraft {
                legacy_revision: None,
                entries: Seq::empty(),
                serialize: true,
                deserialize: true,
                skip: None,
                walk: None,
            },
        )
    } else {
        match item_options_fold(options.drop_last()) {
            Ok(d) => item_option_step(d, options.last()),
            Err(e) => Err(e),
        }
    }
}

proof fn lemma_item_options_fold_err(options: Seq<ItemOption>, k: int)
    requires
        0 <= k <= options.len(),
        item_options_fold(options.take(k)) is Err,
    ensures
        item_options_fold(options) == item_options_fold(options.take(k)),
    decreases options.len() - k,
{
    if k < options.len() {
        assert(options.take(k + 1).drop_last() == options.take(k));
        lemma_item_options_fold_err(options, k + 1);
    } else {
        assert(options.take(k) == options);
    }
}

/// The latest revision of a history.
pub open spec fn last_revision(history: Seq<HistoryEntry>) -> Option<usize> {
    if history.len() > 0 {
        Some(history.last().revision)
    } else {
        None
    }
}

impl ItemOptions {
    /// The latest revision number in this type's history, if any was specified.
    pub fn current_revision(&self) -> (r: Option<usize>)
        ensures
            r == last_revision(self.history@),
    {
        if self.history.len() > 0 {
            Some(self.history[self.history.len() - 1].revision)
        } else {
            None
        }
    }
}

impl AttributeOptions for ItemOptions {
    type Opt = ItemOption;

    type Model = ItemOptionsModel;

    open spec fn model(&self) -> ItemOptionsModel {
        ItemOptionsModel {
            revision: self.revision,
            history: self.history@,
            serialize: self.serialize,
            deserialize: self.deserialize,
            skip: self.skip,
            walk: self.walk,
        }
    }

    /// Each option applied in turn, then the history resolved.
    open spec fn spec_finish(options: Seq<ItemOption>) -> Result<
        ItemOptionsModel,
        AttributeErrorModel,
    > {
        match item_options_fold(options) {
            Err(e) => Err(e),
            Ok(d) => match spec_resolve_history(d.legacy_revision, d.entries) {
                Err(e) => Err(e),
                Ok(history) => Ok(
                    ItemOptionsModel {
                        revision: last_revision(history),
                        history,
                        serialize: d.serialize,
                        deserialize: d.deserialize,
                        skip: d.skip,
                        walk: d.walk,
                    },
                ),
            },
        }
    }

    /// An accepted history holds the revisions 1, 2, 3, ... in order, and the item's
    /// revision is the last of them.
    fn finish(options: Vec<ItemOption>) -> (r: Result<ItemOptions, AttributeError>)
        ensures
            r matches Ok(o) ==> {
                &&& forall|i: int|
                    0 <= i < o.history.len() ==> #[trigger] o.history@[i].revision == i + 1
                &&& o.revision == last_revision(o.history@)
                &&& o.history.len() > 0 ==> o.revision == Some(o.history.len())
            },
    {
        let ghost opts = options@;
        let mut revision: Option<usize> = None;
        let mut serialize = true;
        let mut deserialize = true;
        let mut skip: Option<bool> = None;
        let mut walk: Option<bool> = None;
        let mut new_entries: Vec<HistoryEntry> = Vec::new();
        for option in it: options
            invariant
                it.seq() == opts,
                item_options_fold(opts.take(it.index() as int)) == Ok::<
                    ItemOptionsDraft,
                    AttributeErrorModel,
                >(
                    ItemOptionsDraft {
                        legacy_revision: revision,
                        entries: new_entries@,
                        serialize,
                        deserialize,
                        skip,
                        walk,
                    },
                ),
        {
            proof {
                assert(opts.take(it.index() + 1).drop_last() == opts.take(it.index() as int));
            }
            let refused: Option<AttributeError> = match option {
                ItemOption::Revision(n) => {
                    if revision.is_some() {
                        Some(AttributeError::OptionSetTwice)
                    } else {
                        revision = Some(n);
                        None
                    }
                },
                ItemOption::RevisionEntry(group) => {
                    match build_history_entry(group) {
                        Ok(entry) => {
                            new_entries.push(entry);
                            None
                        },
                        Err(e) => Some(e),
                    }
                },
                ItemOption::Serialize(b) => {
                    serialize = b;
                    None
                },
                ItemOption::Deserialize(b) => {
                    deserialize = b;
                    None
                },
                ItemOption::Skip(b) => {
                    if skip.is_some() {
                        Some(AttributeError::OptionSetTwice)
                    } else {
                        skip = Some(b);
                        None
                    }
                },
                ItemOption::Walk(b) => {
                    if walk.is_some() {
                        Some(AttributeError::OptionSetTwice)
                    } else {
                        walk = Some(b);
                        None
                    }
                },
            };
            if let Some(e) = refused {
                proof {
                    lemma_item_options_fold_err(opts, it.index() + 1);
                }
                return Err(e);
            }
        }
        assert(opts.take(opts.len() as int) == opts);
        let history = match resolve_history(revision, new_entries) {
            Ok(h) => h,
            Err(e) => return Err(e),
        };
        let current = if history.len() > 0 {
            Some(history[history.len() - 1].revision)
        } else {
            None
        };
        Ok(ItemOptions { revision: current, history, serialize, deserialize, skip, walk })
    }
}

} // verus!
