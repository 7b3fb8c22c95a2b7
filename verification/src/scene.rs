//! A worked scene vocabulary: one closed enum over a small set of host bundle
//! shapes, with the conversion and dispatch code that `codegen` describes for
//! such an enum written out by hand. Each variant wraps exactly one payload
//! and gets a conversion from its payload type into the enum, and spawning
//! dispatches on the variant and hands the payload to the host's
//! bundle-creation call.

use vstd::prelude::*;
use bevy::prelude::Name;
use bevy::ecs::entity::Entity;
use bevy::ecs::system::Commands;
use bevy::transform::components::Transform;
use bevy::transform::TransformBundle;
use crate::host::spawn_bundle;
use crate::tree::BundleEnum;
use crate::tree::IntoBundleTree;

verus! {

#[verifier::external_type_specification]
#[verifier::external_body]
pub struct ExTransform(Transform);

#[verifier::external_type_specification]
#[verifier::external_body]
pub struct ExTransformBundle(TransformBundle);

#[verifier::external_type_specification]
#[verifier::external_body]
pub struct ExName(Name);

/// A scene-graph node: one of a closed set of bundle shapes.
pub enum SceneNode {
    Spatial(TransformBundle),
    Placed(Transform),
    Tagged(Name),
}

impl From<TransformBundle> for SceneNode {
    fn from(value: TransformBundle) -> (r: Self) {
        SceneNode::Spatial(value)
    }
}

impl vstd::std_specs::convert::FromSpecImpl<TransformBundle> for SceneNode {
    open spec fn obeys_from_spec() -> bool {
        true
    }

    open spec fn from_spec(value: TransformBundle) -> Self {
        SceneNode::Spatial(value)
    }
}

impl From<Transform> for SceneNode {
    fn from(value: Transform) -> (r: Self) {
        SceneNode::Placed(value)
    }
}

impl vstd::std_specs::convert::FromSpecImpl<Transform> for SceneNode {
    open spec fn obeys_from_spec() -> bool {
        true
    }

    open spec fn from_spec(value: Transform) -> Self {
        SceneNode::Placed(value)
    }
}

impl From<Name> for SceneNode {
    fn from(value: Name) -> (r: Self) {
        SceneNode::Tagged(value)
    }
}

impl vstd::std_specs::convert::FromSpecImpl<Name> for SceneNode {
    open spec fn obeys_from_spec() -> bool {
        true
    }

    open spec fn from_spec(value: Name) -> Self {
        SceneNode::Tagged(value)
    }
}

impl BundleEnum for SceneNode {
    fn spawn(self, commands: &mut Commands) -> (e: Entity) {
        match self {
            SceneNode::Spatial(bundle) => spawn_bundle(commands, bundle),
            SceneNode::Placed(bundle) => spawn_bundle(commands, bundle),
            SceneNode::Tagged(bundle) => spawn_bundle(commands, bundle),
        }
    }
}

impl IntoBundleTree<SceneNode> for TransformBundle {

}

impl IntoBundleTree<SceneNode> for Transform {

}

impl IntoBundleTree<SceneNode> for Name {

}

} // verus!
