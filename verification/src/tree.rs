//! Trees of bundles and the traversal that spawns them into the host world.
//!
//! A `BundleTree` is a bundle together with an ordered list of child trees.
//! Spawning a tree materialises every child subtree first, then the node's own
//! bundle, and, for a node with children, queues one attachment of the
//! children under the new entity; a tree of `tree_count` nodes spawns exactly
//! that many entities and queues exactly the attachments of `tree_links`, so
//! a leaf spawns as one entity with nothing queued on it, just as spawning
//! its bundle alone would.

use vstd::prelude::*;
use bevy::ecs::entity::Entity;
use bevy::ecs::system::Commands;
use crate::host::bits_of;
use crate::host::entity_bits;
use crate::host::pairs_with_parent;
use crate::host::queued_links;
use crate::host::spawned_ids;

verus! {

/// A bundle that can be spawned via commands.
pub trait BundleEnum: Sized {
    /// Spawns the bundle as one fresh entity on the buffer, queueing no child
    /// attachment.
    fn spawn(self, commands: &mut Commands) -> (e: Entity)
        ensures
            spawned_ids(*final(commands)) == spawned_ids(*old(commands)).push(entity_bits(e)),
            !spawned_ids(*old(commands)).contains(entity_bits(e)),
            queued_links(*final(commands)) == queued_links(*old(commands)),
    ;
}

/// A tree of bundles: a bundle plus an ordered list of child trees.
pub struct BundleTree<B: BundleEnum> {
    pub bundle: B,
    pub children: Vec<BundleTree<B>>,
}

/// How many nodes the tree has.
pub open spec fn tree_count<B: BundleEnum>(t: BundleTree<B>) -> nat
    decreases t,
{
    1 + forest_count(t.children@)
}

/// How many nodes the trees of a forest have together.
pub open spec fn forest_count<B: BundleEnum>(s: Seq<BundleTree<B>>) -> nat
    decreases s,
{
    if s.len() == 0 {
        0
    } else {
        tree_count(s[0]) + forest_count(s.drop_first())
    }
}

/// The attachments spawning `t` queues, given the ids `ids` its nodes get, in
/// the order the nodes are spawned: every child subtree first, in order, then
/// the node itself, so `ids.last()` is the id of `t`'s own entity.
pub open spec fn tree_links<B: BundleEnum>(t: BundleTree<B>, ids: Seq<u64>) -> Seq<(u64, u64)>
    recommends
        ids.len() == tree_count(t),
    decreases t,
{
    forest_links(t.children@, ids.drop_last()) + pairs_with_parent(
        ids.last(),
        forest_roots(t.children@, ids.drop_last()),
    )
}

/// The attachments spawning the trees of a forest queues, one tree after the
/// other, given the ids `ids` their nodes get in spawn order.
pub open spec fn forest_links<B: BundleEnum>(s: Seq<BundleTree<B>>, ids: Seq<u64>) -> Seq<
    (u64, u64),
>
    recommends
        ids.len() == forest_count(s),
    decreases s,
{
    if s.len() == 0 {
        Seq::empty()
    } else {
        tree_links(s[0], ids.take(tree_count(s[0]) as int)) + forest_links(
            s.drop_first(),
            ids.skip(tree_count(s[0]) as int),
        )
    }
}

/// The ids of the root entities of a forest's trees, in order, given the ids
/// `ids` their nodes get in spawn order.
pub open spec fn forest_roots<B: BundleEnum>(s: Seq<BundleTree<B>>, ids: Seq<u64>) -> Seq<u64>
    recommends
        ids.len() == forest_count(s),
    decreases s,
{
    if s.len() == 0 {
        Seq::empty()
    } else {
        seq![ids[tree_count(s[0]) as int - 1]] + forest_roots(
            s.drop_first(),
            ids.skip(tree_count(s[0]) as int),
        )
    }
}

/// Ids handed out freshly: none seen before the call, and no id twice.
pub open spec fn fresh_ids(new: Seq<u64>, pre: Seq<u64>) -> bool {
    &&& forall|i: int| 0 <= i < new.len() ==> !pre.contains(#[trigger] new[i])
    &&& new.no_duplicates()
}

/// What spawning `tree` does to a buffer whose views went from `pre_s`,
/// `pre_l` to `post_s`, `post_l`, with `root` the id of the root's entity:
/// one fresh entity per node, in spawn order, and exactly the attachments of
/// `tree_links` queued after the ones already there.
pub open spec fn spawn_tree_effect<B: BundleEnum>(
    tree: BundleTree<B>,
    pre_s: Seq<u64>,
    pre_l: Seq<(u64, u64)>,
    post_s: Seq<u64>,
    post_l: Seq<(u64, u64)>,
    root: u64,
) -> bool {
    let new = post_s.skip(pre_s.len() as int);
    &&& post_s.len() == pre_s.len() + tree_count(tree)
    &&& post_s.take(pre_s.len() as int) == pre_s
    &&& fresh_ids(new, pre_s)
    &&& root == post_s.last()
    &&& post_l == pre_l + tree_links(tree, new)
}

/// Trait for using commands to spawn a `BundleTree`.
pub trait BundleTreeSpawner: Sized {
    /// The ids of the entities spawned through this buffer so far, in order.
    spec fn spawned(&self) -> Seq<u64>;

    /// The parent-child attachments queued on this buffer so far, in order.
    spec fn links(&self) -> Seq<(u64, u64)>;

    /// Spawns a `BundleTree` and returns the root's entity.
    fn spawn_tree<B: BundleEnum>(&mut self, tree: BundleTree<B>) -> (root: Entity)
        ensures
            spawn_tree_effect(
                tree,
                old(self).spawned(),
                old(self).links(),
                final(self).spawned(),
                final(self).links(),
                entity_bits(root),
            ),
    ;
}

proof fn lemma_forest_count_member<B: BundleEnum>(s: Seq<BundleTree<B>>, k: int)
    requires
        0 <= k < s.len(),
    ensures
        tree_count(s[k]) <= forest_count(s),
    decreases s.len(),
{
    if k > 0 {
        lemma_forest_count_member(s.drop_first(), k - 1);
        assert(s.drop_first()[k - 1] == s[k]);
    }
}

/// Appending one tree to a forest appends its nodes, its links and its root
/// to what the forest alone spawns.
proof fn lemma_forest_snoc<B: BundleEnum>(s: Seq<BundleTree<B>>, t: BundleTree<B>, ids: Seq<u64>)
    requires
        ids.len() == forest_count(s) + tree_count(t),
    ensures
        forest_count(s.push(t)) == forest_count(s) + tree_count(t),
        forest_links(s.push(t), ids) =~= forest_links(s, ids.take(forest_count(s) as int))
            + tree_links(t, ids.skip(forest_count(s) as int)),
        forest_roots(s.push(t), ids) =~= forest_roots(
            s,
            ids.take(forest_count(s) as int),
        ).push(ids.last()),
    decreases s.len(),
{
    if s.len() == 0 {
        assert(s.push(t).drop_first() =~= s);
        assert(s.push(t)[0] == t);
        assert(ids.take(tree_count(t) as int) =~= ids);
        assert(ids.skip(0) =~= ids);
        assert(ids.take(0) =~= Seq::<u64>::empty());
        assert(forest_links(s, ids.skip(tree_count(t) as int)) =~= Seq::<(u64, u64)>::empty());
        assert(forest_roots(s, ids.skip(tree_count(t) as int)) =~= Seq::<u64>::empty());
        assert(forest_links(s, ids.take(0)) =~= Seq::<(u64, u64)>::empty());
        assert(forest_roots(s, ids.take(0)) =~= Seq::<u64>::empty());
        assert(forest_links(s.push(t), ids) =~= tree_links(t, ids));
        assert(forest_roots(s.push(t), ids) =~= seq![ids[tree_count(t) as int - 1]]);
        assert(seq![ids.last()] =~= Seq::<u64>::empty().push(ids.last()));
    } else {
        let tc0 = tree_count(s[0]) as int;
        let fc = forest_count(s) as int;
        let fc1 = forest_count(s.drop_first()) as int;
        lemma_forest_snoc(s.drop_first(), t, ids.skip(tc0));
        assert(s.push(t)[0] == s[0]);
        assert(s.push(t).drop_first() =~= s.drop_first().push(t));
        assert(ids.skip(tc0).take(fc1) =~= ids.take(fc).skip(tc0));
        assert(ids.skip(tc0).skip(fc1) =~= ids.skip(fc));
        assert(ids.skip(tc0).last() == ids.last());
        assert(forest_links(s.push(t), ids) =~= tree_links(s[0], ids.take(tc0)) + forest_links(
            s.drop_first().push(t),
            ids.skip(tc0),
        ));
        assert(ids.take(fc).take(tc0) =~= ids.take(tc0));
        assert(forest_links(s, ids.take(fc)) =~= tree_links(s[0], ids.take(tc0)) + forest_links(
            s.drop_first(),
            ids.take(fc).skip(tc0),
        ));
        assert(forest_links(s.push(t), ids) =~= forest_links(s, ids.take(fc)) + tree_links(
            t,
            ids.skip(fc),
        ));
        assert(forest_roots(s.push(t), ids) =~= seq![ids[tc0 - 1]] + forest_roots(
            s.drop_first().push(t),
            ids.skip(tc0),
        ));
        assert(ids.take(fc)[tc0 - 1] == ids[tc0 - 1]);
        assert(forest_roots(s, ids.take(fc)) =~= seq![ids[tc0 - 1]] + forest_roots(
            s.drop_first(),
            ids.take(fc).skip(tc0),
        ));
        assert(forest_roots(s.push(t), ids) =~= forest_roots(s, ids.take(fc)).push(ids.last()));
    }
}

/// Fresh ids handed out after fresh ids, together, are fresh.
proof fn lemma_fresh_ids_concat(p: Seq<u64>, a: Seq<u64>, b: Seq<u64>)
    requires
        fresh_ids(a, p),
        fresh_ids(b, p + a),
    ensures
        fresh_ids(a + b, p),
{
    assert forall|i: int| 0 <= i < (a + b).len() implies !p.contains(#[trigger] (a + b)[i]) by {
        if i < a.len() {
            assert((a + b)[i] == a[i]);
        } else {
            assert((a + b)[i] == b[i - a.len()]);
            if p.contains(b[i - a.len()]) {
                let w = choose|w: int| 0 <= w < p.len() && p[w] == b[i - a.len()];
                assert((p + a)[w] == b[i - a.len()]);
            }
        }
    }
    assert forall|i: int, j: int|
        0 <= i < j < (a + b).len() implies (a + b)[i] != (a + b)[j] by {
        if i < a.len() && j >= a.len() {
            assert((p + a)[p.len() + i] == a[i]);
            assert((a + b)[j] == b[j - a.len()]);
            assert(!(p + a).contains(b[j - a.len()]));
        }
    }
}

impl BundleTreeSpawner for Commands<'_, '_> {
    open spec fn spawned(&self) -> Seq<u64> {
        spawned_ids(*self)
    }

    open spec fn links(&self) -> Seq<(u64, u64)> {
        queued_links(*self)
    }

    #[verifier::loop_isolation(false)]
    fn spawn_tree<B: BundleEnum>(&mut self, tree: BundleTree<B>) -> (root: Entity)
        decreases tree_count(tree),
    {
        let ghost t0 = tree;
        let ghost pre_s = spawned_ids(*self);
        let ghost pre_l = queued_links(*self);
        let BundleTree { bundle, mut children } = tree;
        let ghost orig = children@;
        let mut child_ids: Vec<Entity> = Vec::new();
        while children.len() > 0
            invariant
                child_ids@.len() + children@.len() == orig.len(),
                children@ =~= orig.skip(child_ids@.len() as int),
                spawned_ids(*self).take(pre_s.len() as int) == pre_s,
                spawned_ids(*self).len() == pre_s.len() + forest_count(
                    orig.take(child_ids@.len() as int),
                ),
                fresh_ids(spawned_ids(*self).skip(pre_s.len() as int), pre_s),
                queued_links(*self) == pre_l + forest_links(
                    orig.take(child_ids@.len() as int),
                    spawned_ids(*self).skip(pre_s.len() as int),
                ),
                bits_of(child_ids@) =~= forest_roots(
                    orig.take(child_ids@.len() as int),
                    spawned_ids(*self).skip(pre_s.len() as int),
                ),
                forall|j: int|
                    0 <= j < child_ids@.len() ==> spawned_ids(*self).skip(
                        pre_s.len() as int,
                    ).contains(entity_bits(#[trigger] child_ids@[j])),
                t0.children@ == orig,
            decreases children@.len(),
        {
            let ghost k: int = child_ids@.len() as int;
            let ghost cur_s = spawned_ids(*self);
            let ghost cur_l = queued_links(*self);
            let ghost new = cur_s.skip(pre_s.len() as int);
            let ghost done = orig.take(k);
            let child = children.remove(0);
            proof {
                assert(child == orig[k]);
                assert(children@ =~= orig.skip(k + 1));
                lemma_forest_count_member(orig, k);
                assert(forest_count(orig.take(orig.len() as int)) == forest_count(orig)) by {
                    assert(orig.take(orig.len() as int) =~= orig);
                }
                assert(tree_count(child) < tree_count(t0));
            }
            let e = self.spawn_tree(child);
            let ghost prev_ids = child_ids@;
            child_ids.push(e);
            proof {
                let post_s = spawned_ids(*self);
                let post_l = queued_links(*self);
                let seg = post_s.skip(cur_s.len() as int);
                let new2 = post_s.skip(pre_s.len() as int);
                let done2 = orig.take(k + 1);
                assert(done2 =~= done.push(orig[k]));
                assert(cur_s =~= pre_s + new);
                assert(post_s.take(pre_s.len() as int) =~= pre_s);
                assert(new2 =~= new + seg);
                lemma_fresh_ids_concat(pre_s, new, seg);
                lemma_forest_snoc(done, orig[k], new2);
                assert(new2.take(forest_count(done) as int) =~= new);
                assert(new2.skip(forest_count(done) as int) =~= seg);
                assert(post_l =~= pre_l + forest_links(done2, new2)) by {
                    assert(forest_links(done2, new2) =~= forest_links(done, new) + tree_links(
                        orig[k],
                        seg,
                    ));
                }
                assert(new2.last() == entity_bits(e));
                assert(bits_of(child_ids@) =~= forest_roots(done2, new2)) by {
                    assert(bits_of(child_ids@) =~= bits_of(prev_ids).push(entity_bits(e)));
                    assert(forest_roots(done2, new2) =~= forest_roots(done, new).push(
                        new2.last(),
                    ));
                }
                assert forall|j: int| 0 <= j < child_ids@.len() implies new2.contains(
                    entity_bits(#[trigger] child_ids@[j]),
                ) by {
                    if j < k {
                        let w = choose|w: int|
                            0 <= w < new.len() && new[w] == entity_bits(child_ids@[j]);
                        assert(new2[w] == new[w]);
                    } else {
                        assert(new2.last() == entity_bits(child_ids@[j]));
                    }
                }
            }
        }
        proof {
            assert(orig.take(child_ids@.len() as int) =~= orig);
        }
        let ghost mid_s = spawned_ids(*self);
        let ghost new = mid_s.skip(pre_s.len() as int);
        let root_entity = bundle.spawn(self);
        proof {
            let rb = entity_bits(root_entity);
            assert(mid_s =~= pre_s + new);
            assert(!new.contains(rb)) by {
                if new.contains(rb) {
                    let w = choose|w: int| 0 <= w < new.len() && new[w] == rb;
                    assert(mid_s[pre_s.len() + w] == rb);
                }
            }
            assert(spawned_ids(*self).contains(rb)) by {
                assert(spawned_ids(*self).last() == rb);
            }
            assert forall|i: int|
                0 <= i < child_ids@.len() implies entity_bits(child_ids@[i]) != rb by {
                assert(new.contains(entity_bits(child_ids@[i])));
            }
        }
        if child_ids.len() > 0 {
            crate::host::attach_children(self, root_entity, &child_ids);
        }
        proof {
            let rb = entity_bits(root_entity);
            let post_s = spawned_ids(*self);
            let full = post_s.skip(pre_s.len() as int);
            assert(post_s =~= mid_s.push(rb));
            assert(full =~= new.push(rb));
            assert(post_s.take(pre_s.len() as int) =~= pre_s);
            assert(fresh_ids(full, pre_s)) by {
                assert forall|i: int|
                    0 <= i < full.len() implies !pre_s.contains(#[trigger] full[i]) by {
                    if i < new.len() {
                        assert(full[i] == new[i]);
                    } else {
                        assert(full[i] == rb);
                        if pre_s.contains(rb) {
                            let w = choose|w: int| 0 <= w < pre_s.len() && pre_s[w] == rb;
                            assert(mid_s[w] == rb);
                        }
                    }
                }
                assert forall|i: int, j: int|
                    0 <= i < j < full.len() implies full[i] != full[j] by {
                    if j == full.len() - 1 {
                        assert(full[i] == new[i]);
                        assert(!new.contains(rb));
                    }
                }
            }
            assert(full.drop_last() =~= new);
            assert(queued_links(*self) =~= pre_l + tree_links(t0, full)) by {
                assert(tree_links(t0, full) =~= forest_links(orig, new) + pairs_with_parent(
                    rb,
                    forest_roots(orig, new),
                ));
                assert(bits_of(child_ids@) =~= forest_roots(orig, new));
            }
            assert(spawn_tree_effect(
                t0,
                pre_s,
                pre_l,
                spawned_ids(*self),
                queued_links(*self),
                rb,
            ));
        }
        root_entity
    }
}

impl<B: BundleEnum> BundleTree<B> {
    pub fn new(bundle: B) -> (t: Self)
        ensures
            t.bundle == bundle,
            t.children@ =~= Seq::<BundleTree<B>>::empty(),
    {
        Self { bundle, children: Vec::new() }
    }

    pub fn with_children(self, children: Vec<BundleTree<B>>) -> (t: Self)
        ensures
            t.bundle == self.bundle,
            t.children == children,
    {
        Self { bundle: self.bundle, children }
    }
}

/// Make it easy to convert bundles into their corresponding trees.
pub trait IntoBundleTree<B>: Sized where B: BundleEnum + From<Self> {
    /// Wraps the bundle as a tree of one node and no children.
    fn into_tree(self) -> (t: BundleTree<B>)
        ensures
            t.children@.len() == 0,
            <B as vstd::std_specs::convert::FromSpec<Self>>::obeys_from_spec() ==> t.bundle
                == <B as vstd::std_specs::convert::FromSpec<Self>>::from_spec(self),
    {
        BundleTree::new(B::from(self))
    }

    /// Wraps the bundle as a tree carrying the given children.
    fn with_children(self, children: Vec<BundleTree<B>>) -> (t: BundleTree<B>)
        ensures
            t.children == children,
            <B as vstd::std_specs::convert::FromSpec<Self>>::obeys_from_spec() ==> t.bundle
                == <B as vstd::std_specs::convert::FromSpec<Self>>::from_spec(self),
    {
        self.into_tree().with_children(children)
    }
}

/// Support calling `bundle.into()` to get a `BundleTree`: the bundle becomes
/// a tree of one node and no children. The conversion spec below stays
/// unobeyed because no particular empty `Vec` value can be named in a spec;
/// the contract lives on `from` itself.
impl<B: BundleEnum> From<B> for BundleTree<B> {
    fn from(bundle: B) -> (t: Self)
        ensures
            t.bundle == bundle,
            t.children@.len() == 0,
    {
        BundleTree::new(bundle)
    }
}

impl<B: BundleEnum> vstd::std_specs::convert::FromSpecImpl<B> for BundleTree<B> {
    open spec fn obeys_from_spec() -> bool {
        false
    }

    open spec fn from_spec(bundle: B) -> Self {
        choose|t: BundleTree<B>| t.bundle == bundle && t.children@.len() == 0
    }
}

/// Trait for building a tree from a struct with custom context.
pub trait MakeBundleTree<B: BundleEnum, Context>: Sized {
    /// Returns the `BundleTree` associated with the given type.
    fn tree(self, context: Context) -> BundleTree<B>;
}

/// How often `e` stands as the child of some attachment in `links`.
pub open spec fn times_as_child(links: Seq<(u64, u64)>, e: u64) -> nat {
    links.filter(|l: (u64, u64)| l.1 == e).len()
}

proof fn lemma_times_as_child_add(a: Seq<(u64, u64)>, b: Seq<(u64, u64)>, x: u64)
    ensures
        times_as_child(a + b, x) == times_as_child(a, x) + times_as_child(b, x),
{
    broadcast use Seq::filter_distributes_over_add;

}

proof fn lemma_times_as_child_singleton(l: (u64, u64), x: u64)
    ensures
        times_as_child(seq![l], x) == if l.1 == x {
            1nat
        } else {
            0nat
        },
{
    reveal_with_fuel(Seq::filter, 2);
    assert(seq![l].drop_last() =~= Seq::<(u64, u64)>::empty());
}

proof fn lemma_times_as_child_empty(x: u64)
    ensures
        times_as_child(Seq::<(u64, u64)>::empty(), x) == 0,
{
    reveal_with_fuel(Seq::filter, 1);
}

/// In one attachment group, a child id occurring once among the distinct
/// children is linked exactly once.
proof fn lemma_pairs_count(p: u64, cs: Seq<u64>, x: u64)
    requires
        cs.no_duplicates(),
    ensures
        times_as_child(pairs_with_parent(p, cs), x) == if cs.contains(x) {
            1nat
        } else {
            0nat
        },
    decreases cs.len(),
{
    if cs.len() == 0 {
        lemma_times_as_child_empty(x);
    } else {
        let init = cs.drop_last();
        lemma_pairs_count(p, init, x);
        assert(pairs_with_parent(p, cs) =~= pairs_with_parent(p, init) + seq![(p, cs.last())]);
        lemma_times_as_child_add(pairs_with_parent(p, init), seq![(p, cs.last())], x);
        lemma_times_as_child_singleton((p, cs.last()), x);
        if cs.contains(x) {
            let w = choose|w: int| 0 <= w < cs.len() && cs[w] == x;
            if w < cs.len() - 1 {
                assert(init[w] == x);
                assert(cs.last() != x);
            } else {
                assert(!init.contains(x)) by {
                    if init.contains(x) {
                        let v = choose|v: int| 0 <= v < init.len() && init[v] == x;
                        assert(cs[v] == cs[cs.len() - 1]);
                    }
                }
            }
        } else {
            assert(!init.contains(x)) by {
                if init.contains(x) {
                    let v = choose|v: int| 0 <= v < init.len() && init[v] == x;
                    assert(cs[v] == x);
                }
            }
            assert(cs.last() != x);
        }
    }
}

/// Cutting a duplicate-free id sequence keeps both halves duplicate-free and
/// value-disjoint.
proof fn lemma_no_dup_split(ids: Seq<u64>, n: int)
    requires
        ids.no_duplicates(),
        0 <= n <= ids.len(),
    ensures
        ids.take(n).no_duplicates(),
        ids.skip(n).no_duplicates(),
        forall|x: u64| #[trigger] ids.take(n).contains(x) ==> ids.contains(x),
        forall|x: u64| #[trigger] ids.skip(n).contains(x) ==> ids.contains(x),
        forall|x: u64| #[trigger] ids.take(n).contains(x) ==> !ids.skip(n).contains(x),
{
    assert forall|x: u64| #[trigger] ids.take(n).contains(x) implies ids.contains(x) by {
        let w = choose|w: int| 0 <= w < n && ids.take(n)[w] == x;
        assert(ids[w] == x);
    }
    assert forall|x: u64| #[trigger] ids.skip(n).contains(x) implies ids.contains(x) by {
        let w = choose|w: int| 0 <= w < ids.len() - n && ids.skip(n)[w] == x;
        assert(ids[w + n] == x);
    }
    assert forall|x: u64| #[trigger] ids.take(n).contains(x) implies !ids.skip(n).contains(x) by {
        let w = choose|w: int| 0 <= w < n && ids.take(n)[w] == x;
        if ids.skip(n).contains(x) {
            let v = choose|v: int| 0 <= v < ids.len() - n && ids.skip(n)[v] == x;
            assert(ids[w] == ids[v + n]);
        }
    }
}

/// A forest has one root per tree, all of them among the ids, distinct when
/// the ids are.
proof fn lemma_forest_roots_facts<B: BundleEnum>(s: Seq<BundleTree<B>>, ids: Seq<u64>)
    requires
        ids.len() == forest_count(s),
    ensures
        forest_roots(s, ids).len() == s.len(),
        forall|j: int|
            0 <= j < s.len() ==> ids.contains(#[trigger] forest_roots(s, ids)[j]),
        ids.no_duplicates() ==> forest_roots(s, ids).no_duplicates(),
    decreases s.len(),
{
    if s.len() > 0 {
        let tc0 = tree_count(s[0]) as int;
        let rest = ids.skip(tc0);
        lemma_forest_roots_facts(s.drop_first(), rest);
        let roots = forest_roots(s, ids);
        let tail = forest_roots(s.drop_first(), rest);
        assert(roots =~= seq![ids[tc0 - 1]] + tail);
        assert forall|j: int| 0 <= j < s.len() implies ids.contains(#[trigger] roots[j]) by {
            if j == 0 {
                assert(roots[0] == ids[tc0 - 1]);
            } else {
                assert(roots[j] == tail[j - 1]);
                assert(rest.contains(tail[j - 1]));
                let w = choose|w: int| 0 <= w < rest.len() && rest[w] == tail[j - 1];
                assert(ids[w + tc0] == tail[j - 1]);
            }
        }
        if ids.no_duplicates() {
            lemma_no_dup_split(ids, tc0);
            assert forall|i: int, j: int| 0 <= i < j < roots.len() implies roots[i] != roots[j] by {
                if i == 0 {
                    assert(roots[j] == tail[j - 1]);
                    assert(rest.contains(tail[j - 1]));
                    assert(ids.take(tc0)[tc0 - 1] == ids[tc0 - 1]);
                    assert(ids.take(tc0).contains(ids[tc0 - 1]));
                } else {
                    assert(roots[i] == tail[i - 1] && roots[j] == tail[j - 1]);
                }
            }
        }
    }
}

/// How often an id is linked as a child by the attachments of a forest: once
/// when it is one of the forest's ids but not one of its roots, never
/// otherwise.
proof fn lemma_forest_links_count<B: BundleEnum>(s: Seq<BundleTree<B>>, ids: Seq<u64>, x: u64)
    requires
        ids.len() == forest_count(s),
        ids.no_duplicates(),
    ensures
        times_as_child(forest_links(s, ids), x) == if ids.contains(x) && !forest_roots(
            s,
            ids,
        ).contains(x) {
            1nat
        } else {
            0nat
        },
    decreases s,
{
    if s.len() == 0 {
        lemma_times_as_child_empty(x);
        assert(!ids.contains(x));
    } else {
        let tc0 = tree_count(s[0]) as int;
        let a = ids.take(tc0);
        let b = ids.skip(tc0);
        lemma_no_dup_split(ids, tc0);
        lemma_tree_links_count(s[0], a, x);
        lemma_forest_links_count(s.drop_first(), b, x);
        lemma_times_as_child_add(tree_links(s[0], a), forest_links(s.drop_first(), b), x);
        lemma_forest_roots_facts(s.drop_first(), b);
        let roots = forest_roots(s, ids);
        let tail = forest_roots(s.drop_first(), b);
        assert(roots =~= seq![a.last()] + tail);
        assert(a.last() == ids[tc0 - 1]);
        assert(a.contains(a.last())) by {
            assert(a[tc0 - 1] == a.last());
        }
        if ids.contains(x) {
            let w = choose|w: int| 0 <= w < ids.len() && ids[w] == x;
            if w < tc0 {
                assert(a[w] == x);
                assert(a.contains(x));
            } else {
                assert(b[w - tc0] == x);
                assert(b.contains(x));
            }
        } else {
            assert(!a.contains(x));
            assert(!b.contains(x));
        }
        if roots.contains(x) {
            let j = choose|j: int| 0 <= j < roots.len() && roots[j] == x;
            if j == 0 {
                assert(x == a.last());
            } else {
                assert(tail[j - 1] == x);
                assert(tail.contains(x));
            }
        }
        if tail.contains(x) {
            let j = choose|j: int| 0 <= j < tail.len() && tail[j] == x;
            assert(roots[j + 1] == x);
        }
        if x == a.last() {
            assert(roots[0] == x);
        }
    }
}

/// How often an id is linked as a child by the attachments of one tree: once
/// when it is one of the tree's ids other than the root's, never otherwise.
proof fn lemma_tree_links_count<B: BundleEnum>(t: BundleTree<B>, ids: Seq<u64>, x: u64)
    requires
        ids.len() == tree_count(t),
        ids.no_duplicates(),
    ensures
        times_as_child(tree_links(t, ids), x) == if ids.contains(x) && x != ids.last() {
            1nat
        } else {
            0nat
        },
    decreases t,
{
    let inner = ids.drop_last();
    let root = ids.last();
    assert(inner =~= ids.take(ids.len() - 1));
    lemma_no_dup_split(ids, ids.len() - 1);
    lemma_forest_links_count(t.children@, inner, x);
    lemma_forest_roots_facts(t.children@, inner);
    let roots = forest_roots(t.children@, inner);
    lemma_pairs_count(root, roots, x);
    lemma_times_as_child_add(
        forest_links(t.children@, inner),
        pairs_with_parent(root, roots),
        x,
    );
    assert(ids.skip(ids.len() - 1) =~= seq![root]);
    if x == root {
        assert(ids.skip(ids.len() - 1).contains(x)) by {
            assert(ids.skip(ids.len() - 1)[0] == x);
        }
        assert(!inner.contains(x));
        assert(!roots.contains(x)) by {
            if roots.contains(x) {
                let j = choose|j: int| 0 <= j < roots.len() && roots[j] == x;
            }
        }
        assert(ids.contains(x)) by {
            assert(ids[ids.len() - 1] == x);
        }
    } else {
        if ids.contains(x) {
            let w = choose|w: int| 0 <= w < ids.len() && ids[w] == x;
            assert(w < ids.len() - 1);
            assert(inner[w] == x);
            assert(inner.contains(x));
        } else {
            assert(!inner.contains(x));
            assert(!roots.contains(x)) by {
                if roots.contains(x) {
                    let j = choose|j: int| 0 <= j < roots.len() && roots[j] == x;
                }
            }
        }
    }
}

proof fn lemma_forest_links_members<B: BundleEnum>(s: Seq<BundleTree<B>>, ids: Seq<u64>)
    requires
        ids.len() == forest_count(s),
    ensures
        forall|k: int|
            0 <= k < forest_links(s, ids).len() ==> ids.contains(
                (#[trigger] forest_links(s, ids)[k]).0,
            ) && ids.contains(forest_links(s, ids)[k].1),
    decreases s,
{
    if s.len() > 0 {
        let tc0 = tree_count(s[0]) as int;
        let a = ids.take(tc0);
        let b = ids.skip(tc0);
        lemma_links_among_created(s[0], a);
        lemma_forest_links_members(s.drop_first(), b);
        let first = tree_links(s[0], a);
        let rest = forest_links(s.drop_first(), b);
        assert forall|k: int|
            0 <= k < forest_links(s, ids).len() implies ids.contains(
            (#[trigger] forest_links(s, ids)[k]).0,
        ) && ids.contains(forest_links(s, ids)[k].1) by {
            let l = forest_links(s, ids)[k];
            if k < first.len() {
                assert(l == first[k]);
                let w0 = choose|w: int| 0 <= w < a.len() && a[w] == l.0;
                assert(ids[w0] == l.0);
                let w1 = choose|w: int| 0 <= w < a.len() && a[w] == l.1;
                assert(ids[w1] == l.1);
            } else {
                assert(l == rest[k - first.len()]);
                let w0 = choose|w: int| 0 <= w < b.len() && b[w] == l.0;
                assert(ids[w0 + tc0] == l.0);
                let w1 = choose|w: int| 0 <= w < b.len() && b[w] == l.1;
                assert(ids[w1 + tc0] == l.1);
            }
        }
    }
}

/// Law (companion): every attachment a spawned tree queues stands between
/// entities of that same tree: its parent id and its child id are both among
/// the ids the tree's nodes got.
pub proof fn lemma_links_among_created<B: BundleEnum>(t: BundleTree<B>, ids: Seq<u64>)
    requires
        ids.len() == tree_count(t),
    ensures
        forall|k: int|
            0 <= k < tree_links(t, ids).len() ==> ids.contains(
                (#[trigger] tree_links(t, ids)[k]).0,
            ) && ids.contains(tree_links(t, ids)[k].1),
    decreases t,
{
    let inner = ids.drop_last();
    let root = ids.last();
    lemma_forest_links_members(t.children@, inner);
    lemma_forest_roots_facts(t.children@, inner);
    let fl = forest_links(t.children@, inner);
    let roots = forest_roots(t.children@, inner);
    let pairs = pairs_with_parent(root, roots);
    assert(ids[ids.len() - 1] == root);
    assert forall|k: int|
        0 <= k < tree_links(t, ids).len() implies ids.contains(
        (#[trigger] tree_links(t, ids)[k]).0,
    ) && ids.contains(tree_links(t, ids)[k].1) by {
        let l = tree_links(t, ids)[k];
        if k < fl.len() {
            assert(l == fl[k]);
            let w0 = choose|w: int| 0 <= w < inner.len() && inner[w] == l.0;
            assert(ids[w0] == l.0);
            let w1 = choose|w: int| 0 <= w < inner.len() && inner[w] == l.1;
            assert(ids[w1] == l.1);
        } else {
            assert(l == pairs[k - fl.len()]);
            assert(l == (root, roots[k - fl.len()]));
            assert(inner.contains(roots[k - fl.len()]));
            let w1 = choose|w: int| 0 <= w < inner.len() && inner[w] == l.1;
            assert(ids[w1] == l.1);
        }
    }
}

/// Law: spawning a tree attaches every created entity except the root's as
/// the child of exactly one other created entity, and the root's entity as
/// the child of none.
pub proof fn lemma_children_linked_once<B: BundleEnum>(t: BundleTree<B>, ids: Seq<u64>)
    requires
        ids.len() == tree_count(t),
        ids.no_duplicates(),
    ensures
        forall|i: int|
            0 <= i < ids.len() - 1 ==> times_as_child(tree_links(t, ids), #[trigger] ids[i]) == 1,
        times_as_child(tree_links(t, ids), ids.last()) == 0,
{
    assert forall|i: int|
        0 <= i < ids.len() - 1 implies times_as_child(tree_links(t, ids), #[trigger] ids[i])
        == 1 by {
        lemma_tree_links_count(t, ids, ids[i]);
        assert(ids.contains(ids[i]));
        assert(ids[i] != ids.last());
    }
    lemma_tree_links_count(t, ids, ids.last());
    assert(!(ids.contains(ids.last()) && ids.last() != ids.last()));
}

/// Law: a tree of a single node has one entity and queues no attachment at
/// all, so spawning `bundle.into_tree()` does to the buffer exactly what
/// spawning the bundle by itself does: one fresh entity, no links.
pub proof fn lemma_single_node_spawn<B: BundleEnum>(t: BundleTree<B>, id: u64)
    requires
        t.children@.len() == 0,
    ensures
        tree_count(t) == 1,
        tree_links(t, seq![id]) =~= Seq::<(u64, u64)>::empty(),
{
    let ids = seq![id];
    assert(ids.drop_last() =~= Seq::<u64>::empty());
    assert(forest_links(t.children@, ids.drop_last()) =~= Seq::<(u64, u64)>::empty());
    assert(forest_roots(t.children@, ids.drop_last()) =~= Seq::<u64>::empty());
    assert(pairs_with_parent(ids.last(), Seq::<u64>::empty()) =~= Seq::<(u64, u64)>::empty());
}

} // verus!
