//! The generator behind the attribute-driven conversion derive: for an enum
//! whose variants each wrap one payload value, describe a conversion into the
//! enum for each variant whose payload carries the marker attribute. Any
//! other input fails the expansion with a diagnostic: a non-enum, or an enum
//! with a variant that does not wrap exactly one value.

use vstd::prelude::*;
use crate::codegen::all_single_field;
use crate::codegen::from_impls_view;
use crate::codegen::lemma_marked_skip;
use crate::codegen::lemma_marked_step;
use crate::codegen::marked_from_views;
use crate::codegen::DeriveInputDef;
use crate::codegen::FromImplDef;
use crate::codegen::InputData;
use crate::codegen::MacroError;
use crate::codegen::VariantDef;

verus! {

/// Describes what the derive emits for `input`: the conversions for the
/// marked variants of a well-formed enum. A non-enum input is refused, and so
/// is an enum with a variant of the wrong field arity, each with its
/// diagnostic.
pub fn derive(input: &DeriveInputDef) -> (r: Result<Vec<FromImplDef>, MacroError>)
    ensures
        !(input.data matches InputData::Enum(_)) ==> r matches Err(MacroError::NotAnEnum),
        input.data matches InputData::Enum(vs) ==> ({
            if all_single_field(vs@) {
                r matches Ok(g) && from_impls_view(g@) == marked_from_views(input.name@, vs@)
            } else {
                r matches Err(MacroError::WrongFieldArity)
            }
        }),
{
    match &input.data {
        InputData::Enum(variants) => impl_enum(input, variants),
        _ => Err(MacroError::NotAnEnum),
    }
}

/// Walks the variants once and describes, for each variant whose payload is
/// marked, the conversion into the enum; a variant that does not wrap exactly
/// one value fails the expansion.
pub fn impl_enum(input: &DeriveInputDef, variants: &Vec<VariantDef>) -> (r: Result<
    Vec<FromImplDef>,
    MacroError,
>)
    ensures
        r is Ok <==> all_single_field(variants@),
        r matches Ok(g) ==> from_impls_view(g@) == marked_from_views(input.name@, variants@),
        r matches Err(e) ==> e == MacroError::WrongFieldArity,
{
    let mut from_impls: Vec<FromImplDef> = Vec::new();
    let mut i: usize = 0;
    while i < variants.len()
        invariant
            i <= variants.len(),
            forall|j: int| 0 <= j < i ==> #[trigger] variants@[j].fields@.len() == 1,
            from_impls_view(from_impls@) == marked_from_views(
                input.name@,
                variants@.take(i as int),
            ),
        decreases variants.len() - i,
    {
        let ghost fi0 = from_impls@;
        let v = &variants[i];
        if v.fields.len() != 1 {
            return Err(MacroError::WrongFieldArity);
        }
        if v.fields[0].marked_from {
            from_impls.push(
                FromImplDef {
                    enum_name: input.name.clone(),
                    variant: v.name.clone(),
                    payload_ty: v.fields[0].ty.clone(),
                },
            );
        }
        proof {
            let vv = variants@[i as int];
            if vv.fields@[0].marked_from {
                let d = from_impls@.last();
                assert(from_impls@ == fi0.push(d));
                assert(d@ == (input.name@, vv.name@, vv.fields@[0].ty@));
                lemma_marked_step(input.name@, variants@, i as int, fi0, d);
            } else {
                lemma_marked_skip(input.name@, variants@, i as int);
            }
        }
        i += 1;
    }
    proof {
        assert(variants@.take(variants@.len() as int) =~= variants@);
    }
    Ok(from_impls)
}

} // verus!
