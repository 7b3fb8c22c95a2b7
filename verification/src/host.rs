//! The boundary to the host entity-component-system: the command buffer that
//! entity creation and child attachment are queued into.
//!
//! The host side is modelled by two views of a `Commands` buffer: the ids of
//! the entities spawned through it so far, in order, and the parent-child
//! attachments queued on it so far, in order. Everything the library proves
//! about tree spawning is stated over these two views.

use vstd::prelude::*;
use bevy::ecs::bundle::Bundle;
use bevy::ecs::entity::Entity;
use bevy::ecs::system::Commands;
use bevy::hierarchy::BuildChildren;

verus! {

#[verifier::external_type_specification]
#[verifier::external_body]
pub struct ExCommands<'w, 's>(Commands<'w, 's>);

#[verifier::external_type_specification]
#[verifier::external_body]
pub struct ExEntity(Entity);

/// The id bits of an entity, as the host packs them.
pub uninterp spec fn entity_bits(e: Entity) -> u64;

/// The ids of the entities spawned through this buffer so far, in spawn order.
pub uninterp spec fn spawned_ids(c: Commands) -> Seq<u64>;

/// The parent-child attachments queued on this buffer so far, in order.
pub uninterp spec fn queued_links(c: Commands) -> Seq<(u64, u64)>;

/// The ids of a sequence of entities, in order.
pub open spec fn bits_of(entities: Seq<Entity>) -> Seq<u64> {
    entities.map(|i: int, e: Entity| entity_bits(e))
}

/// The pairs that attaching `children` under `parent` queues, in order.
pub open spec fn pairs_with_parent(parent: u64, children: Seq<u64>) -> Seq<(u64, u64)> {
    children.map(|i: int, c: u64| (parent, c))
}

/// Relies on bevy's `Commands::spawn`: it reserves one fresh entity, never one
/// handed out before, and queues the insertion of the bundle on it; it queues
/// no child attachment.
#[verifier::external_body]
pub(crate) fn spawn_bundle<T: Bundle>(commands: &mut Commands, bundle: T) -> (e: Entity)
    ensures
        spawned_ids(*final(commands)) == spawned_ids(*old(commands)).push(entity_bits(e)),
        !spawned_ids(*old(commands)).contains(entity_bits(e)),
        queued_links(*final(commands)) == queued_links(*old(commands)),
{
    commands.spawn(bundle).id()
}

/// Relies on bevy's `Commands::entity` and `BuildChildren::push_children`:
/// for an entity spawned through this buffer, they queue one attachment of the
/// given children, in order, under that entity; they spawn nothing. `entity`
/// panics when the entity does not exist — one spawned through this buffer
/// always does — and `push_children` panics when the parent is among the
/// children: the preconditions keep both out.
#[verifier::external_body]
pub(crate) fn attach_children(commands: &mut Commands, parent: Entity, children: &Vec<Entity>)
    requires
        spawned_ids(*old(commands)).contains(entity_bits(parent)),
        forall|i: int|
            0 <= i < children@.len() ==> entity_bits(children@[i]) != entity_bits(parent),
    ensures
        spawned_ids(*final(commands)) == spawned_ids(*old(commands)),
        queued_links(*final(commands)) == queued_links(*old(commands)) + pairs_with_parent(
            entity_bits(parent),
            bits_of(children@),
        ),
{
    commands.entity(parent).push_children(children.as_slice());
}

} // verus!
