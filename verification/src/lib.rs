//! Compose heterogeneous component bundles into trees and spawn them into a
//! host entity-component-system world, entity by entity, with the parent-child
//! hierarchy of the tree preserved.

use vstd::prelude::*;

pub mod as_bundle_tree;
pub mod bundle_enum;
pub mod codegen;
pub mod expand;
pub mod host;
pub mod scene;
pub mod tree;

verus! {

pub use crate::host::entity_bits;
pub use crate::host::spawned_ids;
pub use crate::host::queued_links;
pub use crate::scene::SceneNode;
pub use crate::tree::BundleEnum;
pub use crate::tree::BundleTree;
pub use crate::tree::BundleTreeSpawner;
pub use crate::tree::IntoBundleTree;
pub use crate::tree::MakeBundleTree;

} // verus!
