//! What holds of the scene graph across its operations.

use vstd::prelude::*;
use crate::algebra::{Arithmetic, Matrix4};
use crate::component::visited;
use crate::error::SceneError;
use crate::scene::{as_int, as_ints, listable, Scene};
use crate::shape::lemma_picked_one;

verus! {

/// A component that was just made has never been attached, is part of no
/// scene, and has a global matrix that is its local matrix.
pub proof fn new_component_is_detached(pre: Scene, post: Scene, id: int)
    requires
        post.inserted(pre, id),
    ensures
        !post.component(id).has_parent,
        !post.component(id).scene,
        post.component(id).transformation@.global == post.component(id).transformation@.local,
{
}

/// A component that has been attached is never added again: `add` answers
/// with a fault, whatever the parent, and by its contract leaves the scene
/// as it was.
pub proof fn attached_child_is_refused(scene: Scene, parent: usize, child: usize)
    requires
        scene.valid(child as int),
        scene.component(child as int).has_parent,
    ensures
        scene.add_outcome(parent, child) is Err,
        scene.valid(parent as int) ==> scene.add_outcome(parent, child) == Err::<(), SceneError>(
            SceneError::AlreadyParented,
        ),
{
}

/// After `set_root(root)`, every component of the subtree of `root` is part
/// of the scene, and each of them that is a mesh stands at exactly one place
/// of the list of meshes, each that is a light at exactly one place of the
/// list of lights.
pub proof fn rooted_subtree_is_attached_and_listed(pre: Scene, post: Scene, root: usize, m: usize)
    requires
        pre.wf(),
        post.wf(),
        pre.set_root_outcome(root) is Ok,
        post.rooted(pre, root),
        pre.shape().reaches(root as int, m as int),
    ensures
        post.component(m as int).scene,
        post.component(m as int).variant is Mesh ==> exists|k: int|
            0 <= k < post.spec_meshes()@.len() && #[trigger] post.spec_meshes()@[k] == m && forall|
                j: int,
            |
                0 <= j < post.spec_meshes()@.len() && #[trigger] post.spec_meshes()@[j] == m ==> j
                    == k,
        post.component(m as int).variant is Light ==> exists|k: int|
            0 <= k < post.spec_lights()@.len() && #[trigger] post.spec_lights()@[k] == m && forall|
                j: int,
            |
                0 <= j < post.spec_lights()@.len() && #[trigger] post.spec_lights()@[j] == m ==> j
                    == k,
{
    let sh = pre.shape();
    assert(pre.component(root as int).has_parent <==> (pre.component(root as int).parent is Some
        || pre.spec_root() == Some(root)));
    let n = m as int;
    assert(pre.valid(n));
    sh.lemma_reaches_tree(root as int, n);
    assert(post.component(n).scene);
    if post.component(n).variant is Mesh {
        let list = post.spec_meshes()@;
        assert(listable(post.component(n).variant, false));
        assert(as_ints(list).contains(n));
        let k = choose|k: int| 0 <= k < list.len() && as_ints(list)[k] == n;
        assert(list[k] == m);
    }
    if post.component(n).variant is Light {
        let list = post.spec_lights()@;
        assert(listable(post.component(n).variant, true));
        assert(as_ints(list).contains(n));
        let k = choose|k: int| 0 <= k < list.len() && as_ints(list)[k] == n;
        assert(list[k] == m);
    }
}

/// After a traversal from `node`, the global matrix of every component of
/// the subtree is its local matrix times the global matrix of its parent;
/// for `node` itself, times the matrix that the traversal was given.
pub proof fn global_is_local_times_parent<A: Arithmetic>(
    pre: Scene,
    post: Scene,
    node: int,
    parent: Matrix4,
    ops: &A,
    m: int,
)
    requires
        pre.wf(),
        pre.valid(node),
        post.traversed(pre, node, parent, ops),
        pre.shape().reaches(node, m),
    ensures
        m == node ==> ops.product_gives(
            post.component(m).transformation@.local,
            parent,
            post.component(m).transformation@.global,
        ),
        m != node ==> post.component(m).parent is Some && pre.shape().reaches(
            node,
            post.component(m).parent->0 as int,
        ) && ops.product_gives(
            post.component(m).transformation@.local,
            post.component(post.component(m).parent->0 as int).transformation@.global,
            post.component(m).transformation@.global,
        ),
{
    assert(visited(ops, pre.component(m), post.above(node, parent, m), post.component(m)));
    if m != node {
        pre.shape().lemma_reaches_step(node, m);
        assert(pre.valid(m));
        assert(pre.shape().parents[m] == as_int(pre.component(m).parent));
    }
}

/// The lists only grow, and only at their ends: what `add` finds listed
/// stays listed, at the place where it was.
pub proof fn add_keeps_what_is_listed(pre: Scene, post: Scene, parent: usize, child: usize)
    requires
        post.added(pre, parent, child),
    ensures
        pre.spec_meshes()@.is_prefix_of(post.spec_meshes()@),
        pre.spec_lights()@.is_prefix_of(post.spec_lights()@),
{
    lemma_prefix(pre.spec_meshes()@, post.spec_meshes()@);
    lemma_prefix(pre.spec_lights()@, post.spec_lights()@);
}

/// What `set_root` finds listed stays listed, at the place where it was.
pub proof fn set_root_keeps_what_is_listed(pre: Scene, post: Scene, root: usize)
    requires
        post.rooted(pre, root),
    ensures
        pre.spec_meshes()@.is_prefix_of(post.spec_meshes()@),
        pre.spec_lights()@.is_prefix_of(post.spec_lights()@),
{
    lemma_prefix(pre.spec_meshes()@, post.spec_meshes()@);
    lemma_prefix(pre.spec_lights()@, post.spec_lights()@);
}

/// A list that, as integers, begins with another begins with it.
proof fn lemma_prefix(a: Seq<usize>, b: Seq<usize>)
    requires
        exists|rest: Seq<int>| as_ints(b) == as_ints(a) + rest,
    ensures
        a.is_prefix_of(b),
{
    let rest = choose|rest: Seq<int>| as_ints(b) == as_ints(a) + rest;
    assert(as_ints(a).len() == a.len());
    assert(as_ints(b).len() == b.len());
    assert forall|k: int| 0 <= k < a.len() implies a[k] == b[k] by {
        assert(as_ints(a)[k] == a[k] as int);
        assert(as_ints(b)[k] == b[k] as int);
        assert((as_ints(a) + rest)[k] == as_ints(a)[k]);
    }
}

/// A component without children that is added under a component of the
/// scene goes to the end of its list: a mesh to the end of the list of
/// meshes, a light to the end of the list of lights. What was listed stays
/// where it was.
pub proof fn added_leaf_is_listed_last(pre: Scene, post: Scene, parent: usize, child: usize)
    requires
        pre.wf(),
        pre.add_outcome(parent, child) is Ok,
        post.added(pre, parent, child),
        pre.component(parent as int).scene,
        pre.component(child as int).children.len() == 0,
    ensures
        post.spec_meshes()@ == if pre.component(child as int).variant is Mesh {
            pre.spec_meshes()@.push(child)
        } else {
            pre.spec_meshes()@
        },
        post.spec_lights()@ == if pre.component(child as int).variant is Light {
            pre.spec_lights()@.push(child)
        } else {
            pre.spec_lights()@
        },
{
    let sh = pre.shape();
    let c = child as int;
    assert(sh.children[c] == as_ints(pre.component(c).children));
    assert(sh.preorder_below(c, 0) =~= Seq::<int>::empty());
    assert(sh.preorder(c) =~= seq![c]);
    lemma_picked_one(pre.kinds(false), c);
    lemma_picked_one(pre.kinds(true), c);
    let meshes = if pre.component(c).variant is Mesh {
        pre.spec_meshes()@.push(child)
    } else {
        pre.spec_meshes()@
    };
    let lights = if pre.component(c).variant is Light {
        pre.spec_lights()@.push(child)
    } else {
        pre.spec_lights()@
    };
    assert(as_ints(meshes) =~= as_ints(post.spec_meshes()@));
    assert(as_ints(lights) =~= as_ints(post.spec_lights()@));
    lemma_as_ints_injective(meshes, post.spec_meshes()@);
    lemma_as_ints_injective(lights, post.spec_lights()@);
}

/// Two lists of indices that are the same as integers are the same.
proof fn lemma_as_ints_injective(a: Seq<usize>, b: Seq<usize>)
    requires
        as_ints(a) == as_ints(b),
    ensures
        a == b,
{
    assert(a.len() == as_ints(a).len());
    assert(b.len() == as_ints(b).len());
    assert forall|k: int| 0 <= k < a.len() implies a[k] == b[k] by {
        assert(as_ints(a)[k] == a[k] as int);
        assert(as_ints(b)[k] == b[k] as int);
    }
    assert(a =~= b);
}

/// The lists keep the order of attachment: two meshes without children that
/// are added, one after the other, under components of the scene stand at
/// the end of the list of meshes in the order in which they were added.
pub proof fn meshes_are_listed_in_order_of_attachment(
    start: Scene,
    between: Scene,
    end: Scene,
    first_parent: usize,
    first: usize,
    second_parent: usize,
    second: usize,
)
    requires
        start.wf(),
        start.add_outcome(first_parent, first) is Ok,
        between.added(start, first_parent, first),
        start.component(first_parent as int).scene,
        start.component(first as int).variant is Mesh,
        start.component(first as int).children.len() == 0,
        between.wf(),
        between.add_outcome(second_parent, second) is Ok,
        end.added(between, second_parent, second),
        between.component(second_parent as int).scene,
        between.component(second as int).variant is Mesh,
        between.component(second as int).children.len() == 0,
    ensures
        end.spec_meshes()@ == start.spec_meshes()@.push(first).push(second),
{
    added_leaf_is_listed_last(start, between, first_parent, first);
    added_leaf_is_listed_last(between, end, second_parent, second);
}

} // verus!
