//! The model of the code generation for bundle enums.
//!
//! The generators take the shape of a type a derive was applied to — its name
//! and, for an enum, its variants with the types of their fields — and
//! describe the items to emit: one conversion from the payload type into the
//! enum per variant, one dispatch arm per variant, and one tree-conversion
//! marker per variant. Malformed input fails the expansion with a diagnostic:
//! anything that is not an enum, and any enum with a variant that does not
//! wrap exactly one payload value. Rendering the described items as token
//! streams is host-side plumbing; everything decided here, which inputs are
//! accepted and what the emitted code does, is stated exactly.

use vstd::prelude::*;

verus! {

/// One field of an enum variant.
pub struct FieldDef {
    /// The field's type, as path text.
    pub ty: String,
    /// Whether the field carries the attribute that asks for a conversion.
    pub marked_from: bool,
}

/// One variant of an enum a derive was applied to.
pub struct VariantDef {
    pub name: String,
    pub fields: Vec<FieldDef>,
}

/// The shape of the type a derive was applied to.
pub enum InputData {
    Enum(Vec<VariantDef>),
    Struct,
    Union,
}

/// The input handed to a derive: the type's name and its shape.
pub struct DeriveInputDef {
    pub name: String,
    pub data: InputData,
}

/// A described conversion: an implementation of the standard conversion from
/// `payload_ty` into the enum `enum_name`, wrapping the value in `variant`.
pub struct FromImplDef {
    pub enum_name: String,
    pub variant: String,
    pub payload_ty: String,
}

impl View for FromImplDef {
    type V = (Seq<char>, Seq<char>, Seq<char>);

    open spec fn view(&self) -> Self::V {
        (self.enum_name@, self.variant@, self.payload_ty@)
    }
}

/// One described dispatch arm: on `variant`, hand the bound payload to the
/// host's bundle-creation call.
pub struct SpawnArmDef {
    pub variant: String,
}

impl View for SpawnArmDef {
    type V = Seq<char>;

    open spec fn view(&self) -> Self::V {
        self.variant@
    }
}

/// The described spawn dispatch for an enum: an exhaustive match with one arm
/// per variant, next to the conversions into the enum.
pub struct BundleEnumImplDef {
    pub enum_name: String,
    pub arms: Vec<SpawnArmDef>,
    pub from_impls: Vec<FromImplDef>,
}

/// A described tree-conversion marker: an implementation of the
/// tree-conversion trait for `payload_ty`, with `enum_name` as the enum.
pub struct IntoTreeImplDef {
    pub enum_name: String,
    pub payload_ty: String,
}

impl View for IntoTreeImplDef {
    type V = (Seq<char>, Seq<char>);

    open spec fn view(&self) -> Self::V {
        (self.enum_name@, self.payload_ty@)
    }
}

/// The failures of the generators: a derive applied to something other than
/// an enum, or to an enum with a variant that does not wrap exactly one
/// payload value.
#[derive(Debug, PartialEq, Eq, Structural)]
pub enum MacroError {
    NotAnEnum,
    WrongFieldArity,
}

impl MacroError {
    /// The diagnostic the failed expansion reports.
    pub fn message(&self) -> (m: &'static str)
        ensures
            self is NotAnEnum ==> m@ == "From can only be derived for enums"@,
            self is WrongFieldArity ==> m@ == "each variant must wrap exactly one field"@,
    {
        match self {
            MacroError::NotAnEnum => "From can only be derived for enums",
            MacroError::WrongFieldArity => "each variant must wrap exactly one field",
        }
    }
}

/// Well-formed derive input: every variant wraps exactly one payload value.
pub open spec fn all_single_field(vs: Seq<VariantDef>) -> bool {
    forall|i: int| 0 <= i < vs.len() ==> #[trigger] vs[i].fields@.len() == 1
}

/// The variants the attribute-driven generator emits conversions for: those
/// whose payload is marked.
pub open spec fn marked_variants(vs: Seq<VariantDef>) -> Seq<VariantDef>
    recommends
        all_single_field(vs),
{
    vs.filter(|v: VariantDef| v.fields@[0].marked_from)
}

/// The conversions described for an enum, in variant order.
pub open spec fn from_impl_views(enum_name: Seq<char>, vs: Seq<VariantDef>) -> Seq<
    (Seq<char>, Seq<char>, Seq<char>),
>
    recommends
        all_single_field(vs),
{
    vs.map_values(|v: VariantDef| (enum_name, v.name@, v.fields@[0].ty@))
}

/// The dispatch arms described for an enum, in variant order.
pub open spec fn arm_views(vs: Seq<VariantDef>) -> Seq<Seq<char>> {
    vs.map_values(|v: VariantDef| v.name@)
}

/// The tree-conversion markers described for an enum, in variant order.
pub open spec fn into_tree_views(enum_name: Seq<char>, vs: Seq<VariantDef>) -> Seq<
    (Seq<char>, Seq<char>),
>
    recommends
        all_single_field(vs),
{
    vs.map_values(|v: VariantDef| (enum_name, v.fields@[0].ty@))
}

/// The conversions the attribute-driven generator describes, in variant
/// order.
pub open spec fn marked_from_views(enum_name: Seq<char>, vs: Seq<VariantDef>) -> Seq<
    (Seq<char>, Seq<char>, Seq<char>),
>
    recommends
        all_single_field(vs),
{
    marked_variants(vs).map_values(|v: VariantDef| (enum_name, v.name@, v.fields@[0].ty@))
}

/// The views of described conversions, in order.
pub open spec fn from_impls_view(s: Seq<FromImplDef>) -> Seq<(Seq<char>, Seq<char>, Seq<char>)> {
    s.map_values(|f: FromImplDef| f@)
}

/// The views of described dispatch arms, in order.
pub open spec fn arms_view(s: Seq<SpawnArmDef>) -> Seq<Seq<char>> {
    s.map_values(|a: SpawnArmDef| a@)
}

/// The views of described tree-conversion markers, in order.
pub open spec fn into_tree_impls_view(s: Seq<IntoTreeImplDef>) -> Seq<(Seq<char>, Seq<char>)> {
    s.map_values(|m: IntoTreeImplDef| m@)
}

/// No two variants share a name: what Rust guarantees of any enum a derive
/// can be applied to.
pub open spec fn distinct_variant_names(vs: Seq<VariantDef>) -> bool {
    forall|i: int, j: int| 0 <= i < j < vs.len() ==> vs[i].name@ != vs[j].name@
}

/// One generator step: the described conversion for a variant extends the
/// description of the variants before it.
pub proof fn lemma_from_impls_step(
    name: Seq<char>,
    vs: Seq<VariantDef>,
    i: int,
    fi0: Seq<FromImplDef>,
    d: FromImplDef,
)
    requires
        0 <= i < vs.len(),
        from_impls_view(fi0) == from_impl_views(name, vs.take(i)),
        d@ == (name, vs[i].name@, vs[i].fields@[0].ty@),
    ensures
        from_impls_view(fi0.push(d)) == from_impl_views(name, vs.take(i + 1)),
{
    let prev = vs.take(i);
    assert(vs.take(i + 1) =~= prev.push(vs[i]));
    let lhs = from_impls_view(fi0.push(d));
    let rhs = from_impl_views(name, vs.take(i + 1));
    assert(from_impls_view(fi0).len() == from_impl_views(name, prev).len());
    assert(lhs.len() == rhs.len());
    assert forall|k: int| 0 <= k < lhs.len() implies lhs[k] == rhs[k] by {
        if k < fi0.len() {
            assert(fi0.push(d)[k] == fi0[k]);
            assert(lhs[k] == fi0[k]@);
            assert(from_impls_view(fi0)[k] == fi0[k]@);
            assert(from_impl_views(name, prev)[k] == (
                name,
                prev[k].name@,
                prev[k].fields@[0].ty@,
            ));
            assert(vs.take(i + 1)[k] == prev[k]);
        } else {
            assert(fi0.push(d)[k] == d);
            assert(vs.take(i + 1)[k] == vs[i]);
        }
    }
    assert(lhs =~= rhs);
}

/// One generator step: the dispatch arm for a variant extends the arms of the
/// variants before it.
pub proof fn lemma_arms_step(vs: Seq<VariantDef>, i: int, ar0: Seq<SpawnArmDef>, a: SpawnArmDef)
    requires
        0 <= i < vs.len(),
        arms_view(ar0) == arm_views(vs.take(i)),
        a@ == vs[i].name@,
    ensures
        arms_view(ar0.push(a)) == arm_views(vs.take(i + 1)),
{
    let prev = vs.take(i);
    assert(vs.take(i + 1) =~= prev.push(vs[i]));
    let lhs = arms_view(ar0.push(a));
    let rhs = arm_views(vs.take(i + 1));
    assert(arms_view(ar0).len() == arm_views(prev).len());
    assert(lhs.len() == rhs.len());
    assert forall|k: int| 0 <= k < lhs.len() implies lhs[k] == rhs[k] by {
        if k < ar0.len() {
            assert(ar0.push(a)[k] == ar0[k]);
            assert(lhs[k] == ar0[k]@);
            assert(arms_view(ar0)[k] == ar0[k]@);
            assert(arm_views(prev)[k] == prev[k].name@);
            assert(vs.take(i + 1)[k] == prev[k]);
        } else {
            assert(ar0.push(a)[k] == a);
            assert(vs.take(i + 1)[k] == vs[i]);
        }
    }
    assert(lhs =~= rhs);
}

/// One generator step: the tree-conversion marker for a variant extends the
/// markers of the variants before it.
pub proof fn lemma_into_tree_step(
    name: Seq<char>,
    vs: Seq<VariantDef>,
    i: int,
    m0: Seq<IntoTreeImplDef>,
    m: IntoTreeImplDef,
)
    requires
        0 <= i < vs.len(),
        into_tree_impls_view(m0) == into_tree_views(name, vs.take(i)),
        m@ == (name, vs[i].fields@[0].ty@),
    ensures
        into_tree_impls_view(m0.push(m)) == into_tree_views(name, vs.take(i + 1)),
{
    let prev = vs.take(i);
    assert(vs.take(i + 1) =~= prev.push(vs[i]));
    let lhs = into_tree_impls_view(m0.push(m));
    let rhs = into_tree_views(name, vs.take(i + 1));
    assert(into_tree_impls_view(m0).len() == into_tree_views(name, prev).len());
    assert(lhs.len() == rhs.len());
    assert forall|k: int| 0 <= k < lhs.len() implies lhs[k] == rhs[k] by {
        if k < m0.len() {
            assert(m0.push(m)[k] == m0[k]);
            assert(lhs[k] == m0[k]@);
            assert(into_tree_impls_view(m0)[k] == m0[k]@);
            assert(into_tree_views(name, prev)[k] == (name, prev[k].fields@[0].ty@));
            assert(vs.take(i + 1)[k] == prev[k]);
        } else {
            assert(m0.push(m)[k] == m);
            assert(vs.take(i + 1)[k] == vs[i]);
        }
    }
    assert(lhs =~= rhs);
}

/// Appending a variant appends it to the marked selection when its payload is
/// marked and leaves the selection unchanged otherwise.
pub proof fn lemma_marked_push(vs: Seq<VariantDef>, v: VariantDef)
    ensures
        marked_variants(vs.push(v)) == if v.fields@[0].marked_from {
            marked_variants(vs).push(v)
        } else {
            marked_variants(vs)
        },
{
    assert(vs.push(v).drop_last() =~= vs);
    assert(vs.push(v).last() == v);
    reveal_with_fuel(Seq::filter, 1);
}

/// One attribute-driven generator step: the conversion for a marked variant
/// extends the description of the variants before it.
pub proof fn lemma_marked_step(
    name: Seq<char>,
    vs: Seq<VariantDef>,
    i: int,
    fi0: Seq<FromImplDef>,
    d: FromImplDef,
)
    requires
        0 <= i < vs.len(),
        from_impls_view(fi0) == marked_from_views(name, vs.take(i)),
        vs[i].fields@[0].marked_from,
        d@ == (name, vs[i].name@, vs[i].fields@[0].ty@),
    ensures
        from_impls_view(fi0.push(d)) == marked_from_views(name, vs.take(i + 1)),
{
    let prev = vs.take(i);
    assert(vs.take(i + 1) =~= prev.push(vs[i]));
    lemma_marked_push(prev, vs[i]);
    let lhs = from_impls_view(fi0.push(d));
    let rhs = marked_from_views(name, vs.take(i + 1));
    assert(from_impls_view(fi0).len() == marked_from_views(name, prev).len());
    assert(lhs.len() == rhs.len());
    assert forall|k: int| 0 <= k < lhs.len() implies lhs[k] == rhs[k] by {
        assert(marked_variants(vs.take(i + 1))[k] == marked_variants(prev).push(vs[i])[k]);
        if k < fi0.len() {
            assert(fi0.push(d)[k] == fi0[k]);
            assert(lhs[k] == fi0[k]@);
            assert(from_impls_view(fi0)[k] == fi0[k]@);
            assert(marked_from_views(name, prev)[k] == (
                name,
                marked_variants(prev)[k].name@,
                marked_variants(prev)[k].fields@[0].ty@,
            ));
        } else {
            assert(fi0.push(d)[k] == d);
            assert(marked_variants(prev).push(vs[i])[k] == vs[i]);
        }
    }
    assert(lhs =~= rhs);
}

/// One attribute-driven generator step on an unmarked variant: the
/// description does not change.
pub proof fn lemma_marked_skip(name: Seq<char>, vs: Seq<VariantDef>, i: int)
    requires
        0 <= i < vs.len(),
        !vs[i].fields@[0].marked_from,
    ensures
        marked_from_views(name, vs.take(i + 1)) == marked_from_views(name, vs.take(i)),
{
    let prev = vs.take(i);
    assert(vs.take(i + 1) =~= prev.push(vs[i]));
    lemma_marked_push(prev, vs[i]);
}

/// A spec-level enum value as the generated code sees it: the name of the
/// active variant and the payload it wraps, the payload kept abstract.
pub ghost struct GenEnumValue {
    pub variant: Seq<char>,
    pub payload: int,
}

/// What the described conversion does: wrap the payload in its variant.
pub open spec fn apply_from_impl(f: FromImplDef, payload: int) -> GenEnumValue {
    GenEnumValue { variant: f.variant@, payload }
}

/// What the described dispatch match does with an enum value: the first arm
/// whose variant matches binds the payload and spawns it; with no matching
/// arm nothing is spawned.
pub open spec fn dispatch_spawns(arms: Seq<SpawnArmDef>, v: GenEnumValue) -> Option<int>
    decreases arms.len(),
{
    if arms.len() == 0 {
        None
    } else if arms[0].variant@ == v.variant {
        Some(v.payload)
    } else {
        dispatch_spawns(arms.drop_first(), v)
    }
}

proof fn lemma_dispatch_hits(arms: Seq<SpawnArmDef>, v: GenEnumValue, i: int)
    requires
        0 <= i < arms.len(),
        arms[i].variant@ == v.variant,
        forall|j: int| 0 <= j < i ==> arms[j].variant@ != v.variant,
    ensures
        dispatch_spawns(arms, v) == Some(v.payload),
    decreases i,
{
    if i > 0 {
        lemma_dispatch_hits(arms.drop_first(), v, i - 1);
    }
}

/// Law: for any enum with distinct variant names, the described conversion
/// for a variant produces that same variant, and dispatching the converted
/// value spawns the original payload.
pub proof fn lemma_conversion_round_trip(g: BundleEnumImplDef, vs: Seq<VariantDef>, i: int, p: int)
    requires
        arms_view(g.arms@) == arm_views(vs),
        from_impls_view(g.from_impls@) == from_impl_views(g.enum_name@, vs),
        distinct_variant_names(vs),
        0 <= i < g.from_impls@.len(),
    ensures
        apply_from_impl(g.from_impls@[i], p).variant == vs[i].name@,
        dispatch_spawns(g.arms@, apply_from_impl(g.from_impls@[i], p)) == Some(p),
{
    let value = apply_from_impl(g.from_impls@[i], p);
    assert(from_impls_view(g.from_impls@).len() == g.from_impls@.len());
    assert(from_impl_views(g.enum_name@, vs).len() == vs.len());
    assert(0 <= i < vs.len());
    assert(from_impls_view(g.from_impls@)[i] == g.from_impls@[i]@);
    assert(from_impl_views(g.enum_name@, vs)[i] == (
        g.enum_name@,
        vs[i].name@,
        vs[i].fields@[0].ty@,
    ));
    assert(value.variant == vs[i].name@);
    assert(arms_view(g.arms@).len() == g.arms@.len());
    assert(arm_views(vs).len() == vs.len());
    assert(g.arms@.len() == vs.len());
    assert(g.arms@[i]@ == arm_views(vs)[i]) by {
        assert(arms_view(g.arms@)[i] == g.arms@[i]@);
    }
    assert(g.arms@[i].variant@ == vs[i].name@);
    assert forall|j: int| 0 <= j < i implies g.arms@[j].variant@ != value.variant by {
        assert(arms_view(g.arms@)[j] == g.arms@[j]@);
        assert(g.arms@[j].variant@ == vs[j].name@);
    }
    lemma_dispatch_hits(g.arms@, value, i);
}

} // verus!
