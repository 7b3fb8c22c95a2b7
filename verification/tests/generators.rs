use bevy_bundletree::as_bundle_tree;
use bevy_bundletree::bundle_enum;
use bevy_bundletree::codegen::{DeriveInputDef, FieldDef, InputData, MacroError, VariantDef};
use bevy_bundletree::expand;

fn field(ty: &str, marked_from: bool) -> FieldDef {
    FieldDef { ty: ty.to_string(), marked_from }
}

fn variant(name: &str, tys: &[&str]) -> VariantDef {
    let mut fields = Vec::new();
    for ty in tys {
        fields.push(field(ty, false));
    }
    VariantDef { name: name.to_string(), fields }
}

fn ui_node_input() -> DeriveInputDef {
    DeriveInputDef {
        name: "UiNode".to_string(),
        data: InputData::Enum(vec![
            variant("Node", &["NodeBundle"]),
            variant("Text", &["TextBundle"]),
            variant("Button", &["ButtonBundle"]),
        ]),
    }
}

fn bad_arity_input() -> DeriveInputDef {
    DeriveInputDef {
        name: "UiNode".to_string(),
        data: InputData::Enum(vec![
            variant("Node", &["NodeBundle"]),
            variant("Pair", &["NodeBundle", "TextBundle"]),
            variant("Button", &["ButtonBundle"]),
        ]),
    }
}

#[test]
fn bundle_enum_describes_each_variant() {
    let g = match bundle_enum::derive(&ui_node_input()) {
        Ok(g) => g,
        Err(_) => panic!("a well-formed enum input must be accepted"),
    };
    assert_eq!(g.enum_name, "UiNode");
    // One conversion per variant.
    assert_eq!(g.from_impls.len(), 3);
    assert_eq!(g.from_impls[0].variant, "Node");
    assert_eq!(g.from_impls[0].payload_ty, "NodeBundle");
    assert_eq!(g.from_impls[1].variant, "Text");
    assert_eq!(g.from_impls[1].payload_ty, "TextBundle");
    assert_eq!(g.from_impls[2].variant, "Button");
    assert_eq!(g.from_impls[2].payload_ty, "ButtonBundle");
    for f in &g.from_impls {
        assert_eq!(f.enum_name, "UiNode");
    }
    // One dispatch arm per variant, in the same order.
    assert_eq!(g.arms.len(), 3);
    assert_eq!(g.arms[0].variant, "Node");
    assert_eq!(g.arms[1].variant, "Text");
    assert_eq!(g.arms[2].variant, "Button");
}

#[test]
fn bundle_enum_rejects_non_enums() {
    let input = DeriveInputDef { name: "NotAnEnum".to_string(), data: InputData::Struct };
    match bundle_enum::derive(&input) {
        Ok(_) => panic!("a struct input must be refused"),
        Err(e) => {
            assert_eq!(e, MacroError::NotAnEnum);
            assert_eq!(e.message(), "From can only be derived for enums");
        }
    }
    let union_input = DeriveInputDef { name: "NotAnEnum".to_string(), data: InputData::Union };
    assert!(matches!(as_bundle_tree::derive(&union_input), Err(MacroError::NotAnEnum)));
    assert!(matches!(expand::derive(&union_input), Err(MacroError::NotAnEnum)));
}

#[test]
fn wrong_field_arity_fails_the_expansion() {
    // A variant wrapping two values is malformed input for all three derives.
    match bundle_enum::derive(&bad_arity_input()) {
        Ok(_) => panic!("a two-field variant must be refused"),
        Err(e) => {
            assert_eq!(e, MacroError::WrongFieldArity);
            assert_eq!(e.message(), "each variant must wrap exactly one field");
        }
    }
    assert!(matches!(as_bundle_tree::derive(&bad_arity_input()), Err(MacroError::WrongFieldArity)));
    assert!(matches!(expand::derive(&bad_arity_input()), Err(MacroError::WrongFieldArity)));
    // A variant with no field at all is refused too.
    let unit_input = DeriveInputDef {
        name: "UiNode".to_string(),
        data: InputData::Enum(vec![variant("Node", &["NodeBundle"]), variant("Empty", &[])]),
    };
    assert!(matches!(bundle_enum::derive(&unit_input), Err(MacroError::WrongFieldArity)));
}

#[test]
fn as_bundle_tree_describes_payload_markers() {
    let g = match as_bundle_tree::derive(&ui_node_input()) {
        Ok(g) => g,
        Err(_) => panic!("a well-formed enum input must be accepted"),
    };
    assert_eq!(g.len(), 3);
    assert_eq!(g[0].payload_ty, "NodeBundle");
    assert_eq!(g[1].payload_ty, "TextBundle");
    assert_eq!(g[2].payload_ty, "ButtonBundle");
    for m in &g {
        assert_eq!(m.enum_name, "UiNode");
    }
}

#[test]
fn attribute_driven_derive_converts_marked_fields_only() {
    let input = DeriveInputDef {
        name: "Wrapper".to_string(),
        data: InputData::Enum(vec![
            VariantDef { name: "Kept".to_string(), fields: vec![field("u32", true)] },
            VariantDef { name: "Skipped".to_string(), fields: vec![field("u64", false)] },
            VariantDef { name: "AlsoKept".to_string(), fields: vec![field("i16", true)] },
        ]),
    };
    let g = match expand::derive(&input) {
        Ok(g) => g,
        Err(_) => panic!("a well-formed enum input must be accepted"),
    };
    assert_eq!(g.len(), 2);
    assert_eq!(g[0].variant, "Kept");
    assert_eq!(g[0].payload_ty, "u32");
    assert_eq!(g[1].variant, "AlsoKept");
    assert_eq!(g[1].payload_ty, "i16");
    for f in &g {
        assert_eq!(f.enum_name, "Wrapper");
    }
}

#[test]
fn empty_enum_describes_nothing() {
    let input = DeriveInputDef { name: "Empty".to_string(), data: InputData::Enum(Vec::new()) };
    let g = match bundle_enum::derive(&input) {
        Ok(g) => g,
        Err(_) => panic!("an empty enum input must be accepted"),
    };
    assert!(g.from_impls.is_empty());
    assert!(g.arms.is_empty());
}
