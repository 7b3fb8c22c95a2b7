//! The generator behind the bundle-enum derive: for an enum whose variants
//! each wrap one bundle value, describe the spawn dispatch over the variants
//! and one conversion from each payload type into the enum. Any other input
//! fails the expansion with a diagnostic: a non-enum, or an enum with a
//! variant that does not wrap exactly one value.

use vstd::prelude::*;
use crate::codegen::all_single_field;
use crate::codegen::arm_views;
use crate::codegen::arms_view;
use crate::codegen::from_impl_views;
use crate::codegen::from_impls_view;
use crate::codegen::lemma_arms_step;
use crate::codegen::lemma_from_impls_step;
use crate::codegen::BundleEnumImplDef;
use crate::codegen::DeriveInputDef;
use crate::codegen::FromImplDef;
use crate::codegen::InputData;
use crate::codegen::MacroError;
use crate::codegen::SpawnArmDef;
use crate::codegen::VariantDef;

verus! {

/// Describes what the derive emits for `input`: the dispatch and the
/// conversions for a well-formed enum. A non-enum input is refused, and so is
/// an enum with a variant of the wrong field arity, each with its diagnostic.
pub fn derive(input: &DeriveInputDef) -> (r: Result<BundleEnumImplDef, MacroError>)
    ensures
        !(input.data matches InputData::Enum(_)) ==> r matches Err(MacroError::NotAnEnum),
        input.data matches InputData::Enum(vs) ==> ({
            if all_single_field(vs@) {
                r matches Ok(g) && g.enum_name@ == input.name@ && from_impls_view(g.from_impls@)
                    == from_impl_views(input.name@, vs@) && arms_view(g.arms@) == arm_views(vs@)
            } else {
                r matches Err(MacroError::WrongFieldArity)
            }
        }),
{
    match &input.data {
        InputData::Enum(variants) => impl_enum(input, variants),
        _ => Err(MacroError::NotAnEnum),
    }
}

/// Walks the variants once and describes, for each variant, the conversion
/// into the enum and the dispatch arm that hands the payload to the host's
/// bundle-creation call; a variant that does not wrap exactly one value fails
/// the expansion.
pub fn impl_enum(input: &DeriveInputDef, variants: &Vec<VariantDef>) -> (r: Result<
    BundleEnumImplDef,
    MacroError,
>)
    ensures
        r is Ok <==> all_single_field(variants@),
        r matches Ok(g) ==> g.enum_name@ == input.name@ && from_impls_view(g.from_impls@)
            == from_impl_views(input.name@, variants@) && arms_view(g.arms@) == arm_views(
            variants@,
        ),
        r matches Err(e) ==> e == MacroError::WrongFieldArity,
{
    let mut from_impls: Vec<FromImplDef> = Vec::new();
    let mut arms: Vec<SpawnArmDef> = Vec::new();
    let mut i: usize = 0;
    while i < variants.len()
        invariant
            i <= variants.len(),
            forall|j: int| 0 <= j < i ==> #[trigger] variants@[j].fields@.len() == 1,
            from_impls_view(from_impls@) == from_impl_views(
                input.name@,
                variants@.take(i as int),
            ),
            arms_view(arms@) == arm_views(variants@.take(i as int)),
        decreases variants.len() - i,
    {
        let ghost fi0 = from_impls@;
        let ghost ar0 = arms@;
        let v = &variants[i];
        if v.fields.len() != 1 {
            return Err(MacroError::WrongFieldArity);
        }
        from_impls.push(
            FromImplDef {
                enum_name: input.name.clone(),
                variant: v.name.clone(),
                payload_ty: v.fields[0].ty.clone(),
            },
        );
        arms.push(SpawnArmDef { variant: v.name.clone() });
        proof {
            let vv = variants@[i as int];
            let d = from_impls@.last();
            let a = arms@.last();
            assert(from_impls@ == fi0.push(d));
            assert(arms@ == ar0.push(a));
            assert(d@ == (input.name@, vv.name@, vv.fields@[0].ty@));
            lemma_from_impls_step(input.name@, variants@, i as int, fi0, d);
            lemma_arms_step(variants@, i as int, ar0, a);
        }
        i += 1;
    }
    proof {
        assert(variants@.take(variants@.len() as int) =~= variants@);
    }
    Ok(BundleEnumImplDef { enum_name: input.name.clone(), arms, from_impls })
}

} // verus!
