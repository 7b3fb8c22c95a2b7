//! The generator behind the tree-conversion derive: for an enum whose
//! variants each wrap one bundle value, describe one tree-conversion marker
//! per variant, tying the payload type to the enum. Any other input fails the
//! expansion with a diagnostic: a non-enum, or an enum with a variant that
//! does not wrap exactly one value.

use vstd::prelude::*;
use crate::codegen::all_single_field;
use crate::codegen::into_tree_views;
use crate::codegen::into_tree_impls_view;
use crate::codegen::lemma_into_tree_step;
use crate::codegen::DeriveInputDef;
use crate::codegen::InputData;
use crate::codegen::IntoTreeImplDef;
use crate::codegen::MacroError;
use crate::codegen::VariantDef;

verus! {

/// Describes what the derive emits for `input`: the tree-conversion markers
/// for a well-formed enum. A non-enum input is refused, and so is an enum
/// with a variant of the wrong field arity, each with its diagnostic.
pub fn derive(input: &DeriveInputDef) -> (r: Result<Vec<IntoTreeImplDef>, MacroError>)
    ensures
        !(input.data matches InputData::Enum(_)) ==> r matches Err(MacroError::NotAnEnum),
        input.data matches InputData::Enum(vs) ==> ({
            if all_single_field(vs@) {
                r matches Ok(g) && into_tree_impls_view(g@) == into_tree_views(input.name@, vs@)
            } else {
                r matches Err(MacroError::WrongFieldArity)
            }
        }),
{
    match &input.data {
        InputData::Enum(variants) => impl_enum(input, variants),
        _ => Err(MacroError::NotAnEnum),
    }
}

/// Walks the variants once and describes, for each variant, the
/// tree-conversion marker for its payload type; a variant that does not wrap
/// exactly one value fails the expansion.
pub fn impl_enum(input: &DeriveInputDef, variants: &Vec<VariantDef>) -> (r: Result<
    Vec<IntoTreeImplDef>,
    MacroError,
>)
    ensures
        r is Ok <==> all_single_field(variants@),
        r matches Ok(g) ==> into_tree_impls_view(g@) == into_tree_views(input.name@, variants@),
        r matches Err(e) ==> e == MacroError::WrongFieldArity,
{
    let mut impls: Vec<IntoTreeImplDef> = Vec::new();
    let mut i: usize = 0;
    while i < variants.len()
        invariant
            i <= variants.len(),
            forall|j: int| 0 <= j < i ==> #[trigger] variants@[j].fields@.len() == 1,
            into_tree_impls_view(impls@) == into_tree_views(
                input.name@,
                variants@.take(i as int),
            ),
        decreases variants.len() - i,
    {
        let ghost m0 = impls@;
        let v = &variants[i];
        if v.fields.len() != 1 {
            return Err(MacroError::WrongFieldArity);
        }
        impls.push(
            IntoTreeImplDef {
                enum_name: input.name.clone(),
                payload_ty: v.fields[0].ty.clone(),
            },
        );
        proof {
            let vv = variants@[i as int];
            let m = impls@.last();
            assert(impls@ == m0.push(m));
            assert(m@ == (input.name@, vv.fields@[0].ty@));
            lemma_into_tree_step(input.name@, variants@, i as int, m0, m);
        }
        i += 1;
    }
    proof {
        assert(variants@.take(variants@.len() as int) =~= variants@);
    }
    Ok(impls)
}

} // verus!
