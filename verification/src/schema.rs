//! The schema deriver: from the declaration of a struct or an enum whose
//! fields all have formulas, the footprint bound of the aggregate and the
//! structural markers that keep separately derived encoders and decoders in
//! step with the schema.
//!
//! The bound of a struct is the sum of its fields' bounds, folded from the
//! first field to the last starting at zero. The bound of an enum is the
//! largest of its variants' bounds, each computed as for a struct. An
//! aggregate declared open to later extension is unbounded whatever its
//! fields are.

use crate::size::{
    lemma_max_fold_order, lemma_sum_fold_is_total, lemma_sum_fold_order, max_size, spec_max_fold,
    spec_max_size, spec_sum_fold, spec_sum_size, spec_total, sum_size,
};
use vstd::prelude::*;
use vstd::string::StringExecFns;

verus! {

/// A field of a declaration: the text of its type and the stack bound of
/// that type's formula.
#[derive(Clone, Debug, PartialEq, Eq)]
pub struct Field {
    pub ty: String,
    pub max_stack_size: Option<usize>,
}

/// A field that has a name.
#[derive(Clone, Debug, PartialEq, Eq)]
pub struct NamedField {
    pub name: String,
    pub field: Field,
}

/// The fields of a struct or of one variant of an enum.
#[derive(Clone, Debug, PartialEq, Eq)]
pub enum Fields {
    Named(Vec<NamedField>),
    Unnamed(Vec<Field>),
    Unit,
}

/// One variant of an enum.
#[derive(Clone, Debug, PartialEq, Eq)]
pub struct Variant {
    pub name: String,
    pub fields: Fields,
}

/// What kind of type is declared, with its fields or variants.
#[derive(Clone, Debug, PartialEq, Eq)]
pub enum Data {
    Struct(Fields),
    Enum(Vec<Variant>),
    Union,
}

/// A formula named by an attribute of the declaration.
#[derive(Clone, Debug, PartialEq, Eq)]
pub struct FormulaRef {
    pub path: String,
}

/// The attributes of a declaration, as far as the deriver looks at them.
#[derive(Clone, Debug, PartialEq, Eq)]
pub struct Attributes {
    /// The aggregate is open to later extension.
    pub non_exhaustive: bool,
    /// Formula named for encoding.
    pub serialize: Option<FormulaRef>,
    /// Formula named for decoding.
    pub deserialize: Option<FormulaRef>,
    /// Formula named for both.
    pub common: Option<FormulaRef>,
    /// Owned encoding was asked for, perhaps with a formula named for it.
    pub owned: Option<Option<FormulaRef>>,
    /// Variant selected for encoding.
    pub variant: Option<String>,
}

/// A type declaration handed to the deriver.
#[derive(Clone, Debug, PartialEq, Eq)]
pub struct DeriveInput {
    pub ident: String,
    /// Number of generic parameters of the declared type.
    pub generic_params: usize,
    pub attrs: Attributes,
    pub data: Data,
}

/// A structural marker: a fact about the shape of the schema that an
/// encoder or decoder derived elsewhere for the same schema must agree
/// with.
#[derive(Clone, Debug, PartialEq, Eq)]
pub enum Marker {
    /// The named field `name`, of the struct or of variant `variant`, is at
    /// position `index`.
    Field { variant: Option<String>, name: String, index: usize },
    /// The struct, or variant `variant`, has `count` fields.
    FieldCount { variant: Option<String>, count: usize },
    /// The variant `name` is at position `index`.
    Variant { name: String, index: usize },
}

/// Why a declaration cannot be a formula.
#[derive(Clone, Debug, PartialEq, Eq)]
pub enum DeriveError {
    /// The declaration names another formula to encode or decode against,
    /// while being declared a formula itself.
    FormulaSpecified { path: String },
    /// The declaration selects a variant, which only an encoder does.
    VariantSpecified,
    /// The declaration is a union.
    Union,
}

/// What deriving a formula gives.
#[derive(Clone, Debug, PartialEq, Eq)]
pub struct Derived {
    /// The structural markers, fields first, then field counts, then
    /// variants.
    pub markers: Vec<Marker>,
    /// The field types that must be formulas themselves for the aggregate
    /// to be one: every field type where the declaration is generic.
    pub bounds: Vec<String>,
    /// The stack bound of the aggregate.
    pub max_stack_size: Option<usize>,
}

/// The formula that the attributes name, if they name one: for encoding,
/// else for decoding, else for both, else for owned encoding.
pub open spec fn specified_formula(attrs: Attributes) -> Option<FormulaRef> {
    if attrs.serialize is Some {
        attrs.serialize
    } else if attrs.deserialize is Some {
        attrs.deserialize
    } else if attrs.common is Some {
        attrs.common
    } else {
        match attrs.owned {
            Some(named) => named,
            None => None,
        }
    }
}

/// Why the declaration is rejected, if it is.
pub open spec fn rejection(input: DeriveInput) -> Option<DeriveError> {
    if let Some(formula) = specified_formula(input.attrs) {
        Some(DeriveError::FormulaSpecified { path: formula.path })
    } else if input.attrs.variant is Some {
        Some(DeriveError::VariantSpecified)
    } else if input.data is Union {
        Some(DeriveError::Union)
    } else {
        None
    }
}

/// Number of fields.
pub open spec fn field_count(fields: Fields) -> nat {
    match fields {
        Fields::Named(named) => named@.len(),
        Fields::Unnamed(unnamed) => unnamed@.len(),
        Fields::Unit => 0,
    }
}

/// The fields in order, without their names.
pub open spec fn plain_fields(fields: Fields) -> Seq<Field> {
    match fields {
        Fields::Named(named) => Seq::new(named@.len(), |i: int| named@[i].field),
        Fields::Unnamed(unnamed) => unnamed@,
        Fields::Unit => Seq::empty(),
    }
}

/// The types of the fields, in order.
pub open spec fn field_types(fields: Fields) -> Seq<String> {
    Seq::new(field_count(fields), |i: int| plain_fields(fields)[i].ty)
}

/// The sum of the fields' bounds, folded from the first to the last
/// starting at zero.
pub open spec fn product_bound(fields: Seq<Field>) -> Option<usize>
    decreases fields.len(),
{
    if fields.len() == 0 {
        Some(0)
    } else {
        spec_sum_size(product_bound(fields.drop_last()), fields.last().max_stack_size)
    }
}

/// The largest of the variants' bounds, folded from the first to the last
/// starting at zero.
pub open spec fn sum_bound(variants: Seq<Variant>) -> Option<usize>
    decreases variants.len(),
{
    if variants.len() == 0 {
        Some(0)
    } else {
        spec_max_size(
            sum_bound(variants.drop_last()),
            product_bound(plain_fields(variants.last().fields)),
        )
    }
}

/// The stack bound of the aggregate: unbounded where it is declared open to
/// extension.
pub open spec fn aggregate_bound(input: DeriveInput) -> Option<usize> {
    if input.attrs.non_exhaustive {
        None
    } else {
        match input.data {
            Data::Struct(fields) => product_bound(plain_fields(fields)),
            Data::Enum(variants) => sum_bound(variants@),
            Data::Union => None,
        }
    }
}

/// The markers of the named fields: each name with its position.
pub open spec fn field_markers(variant: Option<String>, fields: Fields) -> Seq<Marker> {
    match fields {
        Fields::Named(named) => Seq::new(
            named@.len(),
            |i: int| Marker::Field { variant, name: named@[i].name, index: i as usize },
        ),
        _ => Seq::empty(),
    }
}

/// The field markers of all the variants, variant by variant.
pub open spec fn variant_field_markers(variants: Seq<Variant>) -> Seq<Marker>
    decreases variants.len(),
{
    if variants.len() == 0 {
        Seq::empty()
    } else {
        variant_field_markers(variants.drop_last()) + field_markers(
            Some(variants.last().name),
            variants.last().fields,
        )
    }
}

/// The field-count markers of the variants.
pub open spec fn variant_count_markers(variants: Seq<Variant>) -> Seq<Marker> {
    Seq::new(
        variants.len(),
        |i: int|
            Marker::FieldCount {
                variant: Some(variants[i].name),
                count: field_count(variants[i].fields) as usize,
            },
    )
}

/// The position markers of the variants.
pub open spec fn variant_index_markers(variants: Seq<Variant>) -> Seq<Marker> {
    Seq::new(
        variants.len(),
        |i: int| Marker::Variant { name: variants[i].name, index: i as usize },
    )
}

/// The field types of all the variants, variant by variant.
pub open spec fn variant_field_types(variants: Seq<Variant>) -> Seq<String>
    decreases variants.len(),
{
    if variants.len() == 0 {
        Seq::empty()
    } else {
        variant_field_types(variants.drop_last()) + field_types(variants.last().fields)
    }
}

/// All the markers of a declaration.
pub open spec fn markers_of(data: Data) -> Seq<Marker> {
    match data {
        Data::Struct(fields) => field_markers(None, fields).push(
            Marker::FieldCount { variant: None, count: field_count(fields) as usize },
        ),
        Data::Enum(variants) => variant_field_markers(variants@) + variant_count_markers(
            variants@,
        ) + variant_index_markers(variants@),
        Data::Union => Seq::empty(),
    }
}

/// The field types that must be formulas: all of them where the declared
/// type has generic parameters, none where it has not.
pub open spec fn bounds_of(input: DeriveInput) -> Seq<String> {
    if input.generic_params == 0 {
        Seq::empty()
    } else {
        match input.data {
            Data::Struct(fields) => field_types(fields),
            Data::Enum(variants) => variant_field_types(variants@),
            Data::Union => Seq::empty(),
        }
    }
}

/// An unbounded field makes the struct unbounded.
pub proof fn lemma_unbounded_field(fields: Seq<Field>, index: int)
    requires
        0 <= index < fields.len(),
        fields[index].max_stack_size is None,
    ensures
        product_bound(fields) is None,
    decreases fields.len(),
{
    if index < fields.len() - 1 {
        lemma_unbounded_field(fields.drop_last(), index);
    }
}

/// An unbounded variant makes the enum unbounded.
pub proof fn lemma_unbounded_variant(variants: Seq<Variant>, index: int)
    requires
        0 <= index < variants.len(),
        product_bound(plain_fields(variants[index].fields)) is None,
    ensures
        sum_bound(variants) is None,
    decreases variants.len(),
{
    if index < variants.len() - 1 {
        lemma_unbounded_variant(variants.drop_last(), index);
    }
}

/// An unbounded field anywhere in a variant makes the enum unbounded.
pub proof fn lemma_unbounded_variant_field(variants: Seq<Variant>, variant: int, field: int)
    requires
        0 <= variant < variants.len(),
        0 <= field < plain_fields(variants[variant].fields).len(),
        plain_fields(variants[variant].fields)[field].max_stack_size is None,
    ensures
        sum_bound(variants) is None,
{
    lemma_unbounded_field(plain_fields(variants[variant].fields), field);
    lemma_unbounded_variant(variants, variant);
}

/// Whether the declaration has an unbounded field at the given position:
/// field `field` of a struct, or field `field` of variant `variant` of an
/// enum.
pub open spec fn has_unbounded_field(data: Data, variant: int, field: int) -> bool {
    match data {
        Data::Struct(fields) => {
            &&& 0 <= field < plain_fields(fields).len()
            &&& plain_fields(fields)[field].max_stack_size is None
        },
        Data::Enum(variants) => {
            &&& 0 <= variant < variants@.len()
            &&& 0 <= field < plain_fields(variants@[variant].fields).len()
            &&& plain_fields(variants@[variant].fields)[field].max_stack_size is None
        },
        Data::Union => false,
    }
}

/// A declaration with an unbounded field anywhere derives an unbounded
/// aggregate.
pub proof fn lemma_unbounded_aggregate(input: DeriveInput, variant: int, field: int)
    requires
        has_unbounded_field(input.data, variant, field),
    ensures
        aggregate_bound(input) is None,
{
    match input.data {
        Data::Struct(fields) => {
            lemma_unbounded_field(plain_fields(fields), field);
        },
        Data::Enum(variants) => {
            lemma_unbounded_variant_field(variants@, variant, field);
        },
        Data::Union => {},
    }
}

/// The stack bounds of the fields, in order.
pub open spec fn field_bounds(fields: Seq<Field>) -> Seq<Option<usize>> {
    Seq::new(fields.len(), |i: int| fields[i].max_stack_size)
}

/// The stack bounds of the variants, in order, each as that of a struct
/// with the variant's fields.
pub open spec fn variant_bounds(variants: Seq<Variant>) -> Seq<Option<usize>> {
    Seq::new(variants.len(), |i: int| product_bound(plain_fields(variants[i].fields)))
}

/// The bound of a struct is the sum fold of its fields' bounds.
pub proof fn lemma_product_bound_is_fold(fields: Seq<Field>)
    ensures
        product_bound(fields) == spec_sum_fold(field_bounds(fields)),
    decreases fields.len(),
{
    if fields.len() > 0 {
        lemma_product_bound_is_fold(fields.drop_last());
        assert(field_bounds(fields).drop_last() =~= field_bounds(fields.drop_last()));
    }
}

/// The bound of an enum is the maximum fold of its variants' bounds.
pub proof fn lemma_sum_bound_is_fold(variants: Seq<Variant>)
    ensures
        sum_bound(variants) == spec_max_fold(variant_bounds(variants)),
    decreases variants.len(),
{
    if variants.len() > 0 {
        lemma_sum_bound_is_fold(variants.drop_last());
        assert(variant_bounds(variants).drop_last() =~= variant_bounds(variants.drop_last()));
    }
}

/// The bound of a struct does not depend on the order of its fields: two
/// lists of fields with the same bounds, each as often as in the other,
/// give the same bound.
pub proof fn lemma_field_order(first: Seq<Field>, second: Seq<Field>)
    requires
        field_bounds(first).to_multiset() == field_bounds(second).to_multiset(),
    ensures
        product_bound(first) == product_bound(second),
{
    lemma_product_bound_is_fold(first);
    lemma_product_bound_is_fold(second);
    lemma_sum_fold_order(field_bounds(first), field_bounds(second));
}

/// The bound of an enum does not depend on the order of its variants: two
/// lists of variants with the same bounds, each as often as in the other,
/// give the same bound.
pub proof fn lemma_variant_order(first: Seq<Variant>, second: Seq<Variant>)
    requires
        variant_bounds(first).to_multiset() == variant_bounds(second).to_multiset(),
    ensures
        sum_bound(first) == sum_bound(second),
{
    lemma_sum_bound_is_fold(first);
    lemma_sum_bound_is_fold(second);
    lemma_max_fold_order(variant_bounds(first), variant_bounds(second));
}

/// A struct whose fields are all bounded is bounded by the arithmetic sum
/// of their bounds where that sum fits the machine word, and unbounded
/// where it does not.
pub proof fn lemma_bounded_fields(fields: Seq<Field>)
    requires
        forall|i: int| 0 <= i < fields.len() ==> (#[trigger] fields[i]).max_stack_size is Some,
    ensures
        product_bound(fields) == if spec_total(field_bounds(fields)) <= usize::MAX {
            Some(spec_total(field_bounds(fields)) as usize)
        } else {
            None
        },
{
    lemma_product_bound_is_fold(fields);
    lemma_sum_fold_is_total(field_bounds(fields));
}

/// An aggregate declared open to extension is unbounded, whatever its
/// fields or variants are: adding a field to it later leaves its bound as
/// it was.
pub proof fn lemma_open_ended_is_unbounded(input: DeriveInput, later: DeriveInput)
    requires
        input.attrs.non_exhaustive,
        later.attrs.non_exhaustive,
    ensures
        aggregate_bound(input) is None,
        aggregate_bound(later) == aggregate_bound(input),
{
}

impl Marker {
    /// The name of the constant that stands for this marker: a fixed
    /// prefix, the names that key the marker, and a suffix that tells what
    /// the marker records.
    pub open spec fn spec_ident(self) -> Seq<char> {
        match self {
            Marker::Field { variant: None, name, .. } => "__ALKAHEST_FORMULA_FIELD_"@ + name@
                + "_IDX"@,
            Marker::Field { variant: Some(variant), name, .. } => "__ALKAHEST_FORMULA_VARIANT_"@
                + variant@ + "_FIELD_"@ + name@ + "_IDX"@,
            Marker::FieldCount { variant: None, .. } => "__ALKAHEST_FORMULA_FIELD_COUNT"@,
            Marker::FieldCount { variant: Some(variant), .. } => "__ALKAHEST_FORMULA_VARIANT_"@
                + variant@ + "_FIELD_COUNT"@,
            Marker::Variant { name, .. } => "__ALKAHEST_FORMULA_VARIANT_"@ + name@ + "_IDX"@,
        }
    }

    /// The name of the constant that stands for this marker.
    pub fn ident(&self) -> (ident: String)
        ensures
            ident@ == self.spec_ident(),
    {
        match self {
            Marker::Field { variant: None, name, .. } => {
                let mut ident = String::from_str("__ALKAHEST_FORMULA_FIELD_");
                ident.append(name.as_str());
                ident.append("_IDX");
                ident
            },
            Marker::Field { variant: Some(variant), name, .. } => {
                let mut ident = String::from_str("__ALKAHEST_FORMULA_VARIANT_");
                ident.append(variant.as_str());
                ident.append("_FIELD_");
                ident.append(name.as_str());
                ident.append("_IDX");
                ident
            },
            Marker::FieldCount { variant: None, .. } => String::from_str(
                "__ALKAHEST_FORMULA_FIELD_COUNT",
            ),
            Marker::FieldCount { variant: Some(variant), .. } => {
                let mut ident = String::from_str("__ALKAHEST_FORMULA_VARIANT_");
                ident.append(variant.as_str());
                ident.append("_FIELD_COUNT");
                ident
            },
            Marker::Variant { name, .. } => {
                let mut ident = String::from_str("__ALKAHEST_FORMULA_VARIANT_");
                ident.append(name.as_str());
                ident.append("_IDX");
                ident
            },
        }
    }
}

impl DeriveError {
    /// The words that report this rejection.
    pub fn message(&self) -> (text: &'static str)
        ensures
            text@ == match *self {
                DeriveError::FormulaSpecified { .. } => "Formula type should not be specified for `Serialize` and `Deserialize` when type is also `Formula`"@,
                DeriveError::VariantSpecified => "Variant should not be specified for `Serialize` when type is also `Formula`"@,
                DeriveError::Union => "Formula cannot be derived for unions"@,
            },
    {
        match self {
            DeriveError::FormulaSpecified { .. } => "Formula type should not be specified for `Serialize` and `Deserialize` when type is also `Formula`",
            DeriveError::VariantSpecified => "Variant should not be specified for `Serialize` when type is also `Formula`",
            DeriveError::Union => "Formula cannot be derived for unions",
        }
    }
}

/// Number of fields.
pub fn count_fields(fields: &Fields) -> (count: usize)
    ensures
        count == field_count(*fields),
{
    match fields {
        Fields::Named(named) => named.len(),
        Fields::Unnamed(unnamed) => unnamed.len(),
        Fields::Unit => 0,
    }
}

/// The bound of a struct with these fields.
pub fn struct_bound(fields: &Fields) -> (bound: Option<usize>)
    ensures
        bound == product_bound(plain_fields(*fields)),
{
    let ghost all = plain_fields(*fields);
    let count = count_fields(fields);
    let mut bound: Option<usize> = Some(0);
    let mut index: usize = 0;
    while index < count
        invariant
            index <= count,
            count == field_count(*fields),
            all == plain_fields(*fields),
            bound == product_bound(all.take(index as int)),
        decreases count - index,
    {
        let field_bound = match fields {
            Fields::Named(named) => named[index].field.max_stack_size,
            Fields::Unnamed(unnamed) => unnamed[index].max_stack_size,
            Fields::Unit => None,
        };
        proof {
            assert(all.take(index + 1).drop_last() =~= all.take(index as int));
        }
        bound = sum_size(bound, field_bound);
        index = index + 1;
    }
    proof {
        assert(all.take(count as int) =~= all);
    }
    bound
}

/// The bound of an enum with these variants.
pub fn enum_bound(variants: &Vec<Variant>) -> (bound: Option<usize>)
    ensures
        bound == sum_bound(variants@),
{
    let mut bound: Option<usize> = Some(0);
    let mut index: usize = 0;
    while index < variants.len()
        invariant
            index <= variants.len(),
            bound == sum_bound(variants@.take(index as int)),
        decreases variants.len() - index,
    {
        proof {
            assert(variants@.take(index + 1).drop_last() =~= variants@.take(index as int));
        }
        let variant_bound = struct_bound(&variants[index].fields);
        bound = max_size(bound, variant_bound);
        index = index + 1;
    }
    proof {
        assert(variants@.take(variants.len() as int) =~= variants@);
    }
    bound
}

fn push_field_types(fields: &Fields, types: &mut Vec<String>)
    ensures
        final(types)@ == old(types)@ + field_types(*fields),
{
    let count = count_fields(fields);
    let mut index: usize = 0;
    proof {
        assert(types@ =~= old(types)@ + field_types(*fields).take(0));
    }
    while index < count
        invariant
            index <= count,
            count == field_count(*fields),
            types@ == old(types)@ + field_types(*fields).take(index as int),
        decreases count - index,
    {
        let ty = match fields {
            Fields::Named(named) => named[index].field.ty.clone(),
            Fields::Unnamed(unnamed) => unnamed[index].ty.clone(),
            Fields::Unit => String::new(),
        };
        types.push(ty);
        index = index + 1;
        proof {
            assert(types@ =~= old(types)@ + field_types(*fields).take(index as int));
        }
    }
    proof {
        assert(field_types(*fields).take(count as int) =~= field_types(*fields));
    }
}

fn push_field_markers(variant: &Option<String>, fields: &Fields, markers: &mut Vec<Marker>)
    ensures
        final(markers)@ == old(markers)@ + field_markers(*variant, *fields),
{
    match fields {
        Fields::Named(named) => {
            let mut index: usize = 0;
            proof {
                assert(markers@ =~= old(markers)@ + field_markers(*variant, *fields).take(0));
            }
            while index < named.len()
                invariant
                    index <= named.len(),
                    *fields == Fields::Named(*named),
                    markers@ == old(markers)@ + field_markers(*variant, *fields).take(
                        index as int,
                    ),
                decreases named.len() - index,
            {
                let owner = match variant {
                    Some(name) => Some(name.clone()),
                    None => None,
                };
                markers.push(
                    Marker::Field { variant: owner, name: named[index].name.clone(), index },
                );
                index = index + 1;
                proof {
                    assert(markers@ =~= old(markers)@ + field_markers(*variant, *fields).take(
                        index as int,
                    ));
                }
            }
            proof {
                assert(field_markers(*variant, *fields).take(named.len() as int)
                    =~= field_markers(*variant, *fields));
            }
        },
        _ => {
            proof {
                assert(markers@ + Seq::<Marker>::empty() =~= markers@);
            }
        },
    }
}

fn enum_markers(variants: &Vec<Variant>) -> (markers: Vec<Marker>)
    ensures
        markers@ == variant_field_markers(variants@) + variant_count_markers(variants@)
            + variant_index_markers(variants@),
{
    let mut markers: Vec<Marker> = Vec::new();
    let mut index: usize = 0;
    proof {
        assert(variants@.take(0) =~= Seq::<Variant>::empty());
    }
    while index < variants.len()
        invariant
            index <= variants.len(),
            markers@ == variant_field_markers(variants@.take(index as int)),
        decreases variants.len() - index,
    {
        proof {
            assert(variants@.take(index + 1).drop_last() =~= variants@.take(index as int));
        }
        let owner = Some(variants[index].name.clone());
        push_field_markers(&owner, &variants[index].fields, &mut markers);
        index = index + 1;
    }
    proof {
        assert(variants@.take(variants.len() as int) =~= variants@);
    }
    let ghost fields = markers@;
    index = 0;
    proof {
        assert(markers@ =~= fields + variant_count_markers(variants@).take(0));
    }
    while index < variants.len()
        invariant
            index <= variants.len(),
            markers@ == fields + variant_count_markers(variants@).take(index as int),
        decreases variants.len() - index,
    {
        markers.push(
            Marker::FieldCount {
                variant: Some(variants[index].name.clone()),
                count: count_fields(&variants[index].fields),
            },
        );
        index = index + 1;
        proof {
            assert(markers@ =~= fields + variant_count_markers(variants@).take(index as int));
        }
    }
    proof {
        assert(variant_count_markers(variants@).take(variants.len() as int)
            =~= variant_count_markers(variants@));
    }
    let ghost counts = markers@;
    index = 0;
    proof {
        assert(markers@ =~= counts + variant_index_markers(variants@).take(0));
    }
    while index < variants.len()
        invariant
            index <= variants.len(),
            markers@ == counts + variant_index_markers(variants@).take(index as int),
        decreases variants.len() - index,
    {
        markers.push(Marker::Variant { name: variants[index].name.clone(), index });
        index = index + 1;
        proof {
            assert(markers@ =~= counts + variant_index_markers(variants@).take(index as int));
        }
    }
    proof {
        assert(variant_index_markers(variants@).take(variants.len() as int)
            =~= variant_index_markers(variants@));
    }
    markers
}

fn enum_field_types(variants: &Vec<Variant>) -> (types: Vec<String>)
    ensures
        types@ == variant_field_types(variants@),
{
    let mut types: Vec<String> = Vec::new();
    let mut index: usize = 0;
    proof {
        assert(variants@.take(0) =~= Seq::<Variant>::empty());
    }
    while index < variants.len()
        invariant
            index <= variants.len(),
            types@ == variant_field_types(variants@.take(index as int)),
        decreases variants.len() - index,
    {
        proof {
            assert(variants@.take(index + 1).drop_last() =~= variants@.take(index as int));
        }
        push_field_types(&variants[index].fields, &mut types);
        index = index + 1;
    }
    proof {
        assert(variants@.take(variants.len() as int) =~= variants@);
    }
    types
}

/// Derives the formula of a declaration. A declaration that names another
/// formula, selects a variant or is a union is rejected, in that order of
/// precedence; any other yields its markers, the field types that must be
/// formulas, and its stack bound.
pub fn derive(input: &DeriveInput) -> (r: Result<Derived, DeriveError>)
    ensures
        match rejection(*input) {
            Some(e) => r == Err::<Derived, DeriveError>(e),
            None => r is Ok && r->Ok_0.markers@ == markers_of(input.data) && r->Ok_0.bounds@
                == bounds_of(*input) && r->Ok_0.max_stack_size == aggregate_bound(*input),
        },
{
    let specified = match &input.attrs.serialize {
        Some(formula) => Some(formula),
        None => match &input.attrs.deserialize {
            Some(formula) => Some(formula),
            None => match &input.attrs.common {
                Some(formula) => Some(formula),
                None => match &input.attrs.owned {
                    Some(Some(formula)) => Some(formula),
                    _ => None,
                },
            },
        },
    };
    if let Some(formula) = specified {
        return Err(DeriveError::FormulaSpecified { path: formula.path.clone() });
    }
    if input.attrs.variant.is_some() {
        return Err(DeriveError::VariantSpecified);
    }
    match &input.data {
        Data::Union => Err(DeriveError::Union),
        Data::Struct(fields) => {
            let mut bounds: Vec<String> = Vec::new();
            if input.generic_params > 0 {
                push_field_types(fields, &mut bounds);
                proof {
                    assert(Seq::<String>::empty() + field_types(*fields) =~= field_types(*fields));
                }
            }
            let mut markers: Vec<Marker> = Vec::new();
            push_field_markers(&None, fields, &mut markers);
            markers.push(Marker::FieldCount { variant: None, count: count_fields(fields) });
            proof {
                assert(Seq::<Marker>::empty() + field_markers(None, *fields) =~= field_markers(
                    None,
                    *fields,
                ));
            }
            let mut max_stack_size = struct_bound(fields);
            if input.attrs.non_exhaustive {
                max_stack_size = None;
            }
            Ok(Derived { markers, bounds, max_stack_size })
        },
        Data::Enum(variants) => {
            let bounds = if input.generic_params > 0 {
                enum_field_types(variants)
            } else {
                Vec::new()
            };
            let markers = enum_markers(variants);
            let mut max_stack_size = enum_bound(variants);
            if input.attrs.non_exhaustive {
                max_stack_size = None;
            }
            Ok(Derived { markers, bounds, max_stack_size })
        },
    }
}

} // verus!
