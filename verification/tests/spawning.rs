use bevy::app::{App, Startup};
use bevy::ecs::entity::Entity;
use bevy::ecs::system::{CommandQueue, Commands};
use bevy::ecs::world::World;
use bevy::hierarchy::{Children, Parent};
use bevy::prelude::{Name, Transform};
use bevy::transform::TransformBundle;
use bevy_bundletree::{BundleTree, BundleTreeSpawner, IntoBundleTree, MakeBundleTree, SceneNode};

fn setup(mut commands: Commands) {
    let tree: BundleTree<SceneNode> = TransformBundle::default().with_children(vec![
        Transform::default().into_tree(),
        Name::new("button").into_tree(),
    ]);
    commands.spawn_tree(tree);
}

// Make sure that all entities in the tree are spawned.
#[test]
fn basic_test() {
    // Setup app
    let mut app = App::new();
    app.add_systems(Startup, setup);

    // Run systems
    app.update();

    assert!(app.world.entities().total_count() == 3);
}

#[test]
fn spawns_one_entity_per_node() {
    let mut world = World::new();
    let mut queue = CommandQueue::default();
    {
        let mut commands = Commands::new(&mut queue, &world);
        let tree: BundleTree<SceneNode> = TransformBundle::default().with_children(vec![
            Name::new("left").into_tree(),
            Name::new("middle").with_children(vec![Transform::default().into_tree()]),
            Name::new("right").into_tree(),
        ]);
        commands.spawn_tree(tree);
    }
    queue.apply(&mut world);
    assert_eq!(world.entities().len(), 5);
}

#[test]
fn children_linked_to_their_parents_only() {
    let mut world = World::new();
    let mut queue = CommandQueue::default();
    let root: Entity;
    {
        let mut commands = Commands::new(&mut queue, &world);
        let tree: BundleTree<SceneNode> = TransformBundle::default().with_children(vec![
            Name::new("a").into_tree(),
            Name::new("b").with_children(vec![Transform::default().into_tree()]),
        ]);
        root = commands.spawn_tree(tree);
    }
    queue.apply(&mut world);
    assert_eq!(world.entities().len(), 4);

    // The root has exactly the two direct children, each pointing back at it.
    let root_children: Vec<Entity> = world
        .entity(root)
        .get::<Children>()
        .expect("root should have children")
        .iter()
        .copied()
        .collect();
    assert_eq!(root_children.len(), 2);
    for &child in &root_children {
        assert_eq!(world.entity(child).get::<Parent>().expect("linked").get(), root);
    }

    // The root itself is nobody's child, and every non-root entity has
    // exactly one parent.
    assert!(world.entity(root).get::<Parent>().is_none());
    let mut entities: Vec<Entity> = Vec::new();
    for e in world.iter_entities() {
        entities.push(e.id());
    }
    for e in entities {
        if e != root {
            assert!(world.entity(e).get::<Parent>().is_some());
        }
    }
}

#[test]
fn single_node_tree_matches_direct_spawn() {
    let mut world = World::new();
    let mut queue = CommandQueue::default();
    let direct: Entity;
    let via_tree: Entity;
    {
        let mut commands = Commands::new(&mut queue, &world);
        direct = commands.spawn(Name::new("solo")).id();
        via_tree = commands.spawn_tree(Name::new("solo").into_tree());
    }
    queue.apply(&mut world);
    assert_eq!(world.entities().len(), 2);
    // Equal component state: the same name component, no hierarchy links on
    // either, and the same number of components overall.
    assert_eq!(world.get::<Name>(direct), world.get::<Name>(via_tree));
    assert!(world.get::<Parent>(via_tree).is_none());
    assert!(world.get::<Children>(via_tree).is_none());
    assert_eq!(
        world.inspect_entity(direct).len(),
        world.inspect_entity(via_tree).len()
    );
}

#[test]
fn conversion_produces_matching_variant() {
    assert!(matches!(SceneNode::from(TransformBundle::default()), SceneNode::Spatial(_)));
    assert!(matches!(SceneNode::from(Transform::default()), SceneNode::Placed(_)));
    assert!(matches!(SceneNode::from(Name::new("n")), SceneNode::Tagged(_)));
    // Round trip: the converted value carries the original payload.
    let payload = Name::new("payload");
    let node: SceneNode = payload.clone().into();
    match node {
        SceneNode::Tagged(inner) => assert_eq!(inner, payload),
        _ => panic!("conversion from a name must yield the tagged variant"),
    }
}

struct LabelRow {
    labels: Vec<String>,
}

impl MakeBundleTree<SceneNode, &str> for LabelRow {
    fn tree(self, context: &str) -> BundleTree<SceneNode> {
        let children = self
            .labels
            .iter()
            .map(|label| Name::new(format!("{context}{label}")).into_tree())
            .collect();
        Name::new(context.to_string()).with_children(children)
    }
}

#[test]
fn make_bundle_tree_builds_from_context() {
    let row = LabelRow { labels: vec!["a".to_string(), "b".to_string()] };
    let tree = row.tree("row:");
    assert_eq!(tree.children.len(), 2);
    let mut world = World::new();
    let mut queue = CommandQueue::default();
    {
        let mut commands = Commands::new(&mut queue, &world);
        commands.spawn_tree(tree);
    }
    queue.apply(&mut world);
    assert_eq!(world.entities().len(), 3);
    let mut names: Vec<String> = Vec::new();
    let mut query = world.query::<&Name>();
    for name in query.iter(&world) {
        names.push(name.as_str().to_string());
    }
    names.sort();
    assert_eq!(names, vec!["row:".to_string(), "row:a".to_string(), "row:b".to_string()]);
}

#[test]
fn new_and_with_children_shape_the_tree() {
    let leaf: BundleTree<SceneNode> = BundleTree::new(SceneNode::from(Transform::default()));
    assert!(leaf.children.is_empty());
    let tree: BundleTree<SceneNode> = BundleTree::new(SceneNode::from(Name::new("root")))
        .with_children(vec![
            Name::new("a").into_tree(),
            Name::new("b").into_tree(),
        ]);
    assert_eq!(tree.children.len(), 2);
    assert!(matches!(tree.bundle, SceneNode::Tagged(_)));
    // A tree built from the enum value directly has a single node.
    let from_enum: BundleTree<SceneNode> = SceneNode::from(Name::new("c")).into();
    assert!(from_enum.children.is_empty());
}
