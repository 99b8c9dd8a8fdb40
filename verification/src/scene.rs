//! The scene: the arena that holds every component, the root of the graph,
//! and the lists of what is drawn and what lights.

use vstd::prelude::*;
use crate::algebra::{Arithmetic, Matrix4};
use crate::component::{same_frame, visited, Component, ComponentView, Variant};
use crate::camera::{is_frame, Camera, Frame, RenderCamera};
use crate::error::{RenderError, SceneError};
use crate::mesh::Mesh;
use crate::shape::{lemma_picked_add, lemma_picked_one, picked, Shape};
use crate::transformation::{is_identity, Transformation};

verus! {

/// An index as a mathematical integer.
pub open spec fn as_int(index: Option<usize>) -> Option<int> {
    match index {
        Some(i) => Some(i as int),
        None => None,
    }
}

/// Indices as mathematical integers.
pub open spec fn as_ints(indices: Seq<usize>) -> Seq<int> {
    Seq::new(indices.len(), |k: int| indices[k] as int)
}

/// Whether a list takes a component of this kind: the list of lights takes
/// lights, the list of meshes takes meshes.
pub open spec fn listable(variant: Variant, lights: bool) -> bool {
    if lights {
        variant is Light
    } else {
        variant is Mesh
    }
}

/// A scene graph. Components are made in the arena of the scene, detached;
/// [`Scene::add`] and [`Scene::set_root`] attach them. A component is named
/// by its index in the arena, and an index stays good for as long as the
/// scene lives.
pub struct Scene {
    nodes: Vec<Component>,
    root: Option<usize>,
    meshes: Vec<usize>,
    lights: Vec<usize>,
    depth: Ghost<Seq<nat>>,
    tree: Ghost<Seq<int>>,
    bound: Ghost<nat>,
}

impl Scene {
    /// How many components the arena holds.
    pub closed spec fn len(&self) -> nat {
        self.nodes@.len()
    }

    /// What the component at `i` holds.
    pub closed spec fn component(&self, i: int) -> ComponentView {
        self.nodes[i]@
    }

    pub closed spec fn spec_root(&self) -> Option<usize> {
        self.root
    }

    pub closed spec fn spec_meshes(&self) -> &Vec<usize> {
        &self.meshes
    }

    pub closed spec fn spec_lights(&self) -> &Vec<usize> {
        &self.lights
    }

    /// The forest that the links of the components form.
    pub closed spec fn shape(&self) -> Shape {
        Shape {
            parents: Seq::new(self.nodes.len() as nat, |i: int| as_int(self.nodes[i]@.parent)),
            children: Seq::new(self.nodes.len() as nat, |i: int| as_ints(self.nodes[i]@.children)),
            depth: self.depth@,
            tree: self.tree@,
            bound: self.bound@,
        }
    }

    pub open spec fn valid(&self, i: int) -> bool {
        0 <= i < self.len()
    }

    /// The shape is a forest over the arena and says of each component what
    /// the component says of itself.
    pub open spec fn linked(&self) -> bool {
        &&& self.shape().wf()
        &&& self.shape().len() == self.len()
        &&& forall|i: int|
            self.valid(i) ==> {
                &&& self.shape().parents[i] == as_int((#[trigger] self.component(i)).parent)
                &&& self.shape().children[i] == as_ints(self.component(i).children)
            }
    }

    /// The list `list` holds each component of its kind that is part of the
    /// scene, once, and nothing else.
    pub open spec fn lists(&self, list: Seq<usize>, lights: bool) -> bool {
        &&& list.no_duplicates()
        &&& forall|k: int|
            0 <= k < list.len() ==> {
                &&& self.valid(#[trigger] list[k] as int)
                &&& listable(self.component(list[k] as int).variant, lights)
                &&& self.component(list[k] as int).scene
            }
        &&& forall|n: int|
            self.valid(n) && listable((#[trigger] self.component(n)).variant, lights)
                && self.component(n).scene ==> as_ints(list).contains(n)
    }

    /// Of each component, whether the list of lights, or else the list of
    /// meshes, takes it.
    pub open spec fn kinds(&self, lights: bool) -> Seq<bool> {
        Seq::new(self.len(), |i: int| listable(self.component(i).variant, lights))
    }

    /// Whether `n` is the root of the scene.
    pub open spec fn is_root(&self, n: int) -> bool {
        self.spec_root() matches Some(r) && r == n
    }

    /// Whether the top of the tree of `n` is the root of the scene.
    pub open spec fn under_root(&self, n: int) -> bool {
        self.spec_root() matches Some(r) && r == self.shape().tree[n]
    }

    /// The invariant of the scene. The links form a forest. The root, if
    /// there is one, is the top of a tree, and exactly the components of that
    /// tree are part of the scene. A component has been attached exactly if
    /// it has a parent or is the root. Each list holds the components of its
    /// kind that are part of the scene, each once.
    pub open spec fn wf(&self) -> bool {
        &&& self.linked()
        &&& self.spec_root() matches Some(r) ==> self.valid(r as int) && self.component(
            r as int,
        ).parent is None
        &&& forall|n: int|
            self.valid(n) ==> ((#[trigger] self.component(n)).scene <==> self.under_root(n))
        &&& forall|n: int|
            self.valid(n) ==> ((#[trigger] self.component(n)).has_parent <==> (self.component(
                n,
            ).parent is Some || self.is_root(n)))
        &&& self.lists(self.spec_meshes()@, false)
        &&& self.lists(self.spec_lights()@, true)
    }

    /// `self` is `pre` with one more component, at `id`: detached, in the
    /// identity pose, with nothing else changed.
    pub open spec fn inserted(&self, pre: Scene, id: int) -> bool {
        &&& self.wf()
        &&& id == pre.len()
        &&& self.len() == pre.len() + 1
        &&& self.shape() == pre.shape().grow()
        &&& self.spec_root() == pre.spec_root()
        &&& self.spec_meshes()@ == pre.spec_meshes()@
        &&& self.spec_lights()@ == pre.spec_lights()@
        &&& forall|i: int| pre.valid(i) ==> #[trigger] self.component(i) == pre.component(i)
        &&& self.component(id) == (ComponentView {
            has_parent: false,
            scene: false,
            parent: None,
            children: Seq::empty(),
            transformation: self.component(id).transformation,
            variant: self.component(id).variant,
        })
        &&& is_identity(self.component(id).transformation@)
    }

    /// Two scenes whose components have the same links, and whose ghost
    /// state is the same, have the same shape.
    proof fn lemma_same_shape(&self, other: &Scene)
        requires
            self.nodes.len() == other.nodes.len(),
            self.depth@ == other.depth@,
            self.tree@ == other.tree@,
            self.bound@ == other.bound@,
            forall|i: int|
                self.valid(i) ==> (#[trigger] self.component(i)).parent == other.component(i).parent
                    && self.component(i).children == other.component(i).children,
        ensures
            self.shape() == other.shape(),
    {
        assert forall|i: int| 0 <= i < self.nodes.len() implies self.shape().parents[i]
            == other.shape().parents[i] by {
            assert(self.component(i).parent == other.component(i).parent);
        }
        assert forall|i: int| 0 <= i < self.nodes.len() implies self.shape().children[i]
            == other.shape().children[i] by {
            assert(self.component(i).children == other.component(i).children);
        }
        assert(self.shape().parents =~= other.shape().parents);
        assert(self.shape().children =~= other.shape().children);
    }

    /// An empty scene: no component, no root.
    pub fn new_ref() -> (scene: Scene)
        ensures
            scene.wf(),
            scene.len() == 0,
            scene.spec_root() is None,
            scene.spec_meshes()@ == Seq::<usize>::empty(),
            scene.spec_lights()@ == Seq::<usize>::empty(),
    {
        let scene = Scene {
            nodes: Vec::new(),
            root: None,
            meshes: Vec::new(),
            lights: Vec::new(),
            depth: Ghost(Seq::empty()),
            tree: Ghost(Seq::empty()),
            bound: Ghost(1),
        };
        proof {
            assert(scene.shape().parents =~= Shape::empty().parents);
            assert(scene.shape().children =~= Shape::empty().children);
            assert(scene.shape() == Shape::empty());
        }
        scene
    }

    /// Puts a new component in the arena, detached, and returns its index.
    pub fn insert(&mut self, variant: Variant) -> (id: usize)
        requires
            old(self).wf(),
        ensures
            final(self).inserted(*old(self), id as int),
            final(self).component(id as int).variant == variant,
    {
        let id = self.nodes.len();
        self.nodes.push(Component::new(variant));
        proof {
            self.depth@ = self.depth@.push(0);
            self.tree@ = self.tree@.push(id as int);
            self.bound@ = self.bound@ + 1;
            let pre = old(self).shape();
            assert(self.shape().parents =~= pre.grow().parents);
            assert(self.shape().children =~= pre.grow().children) by {
                assert(as_ints(Seq::<usize>::empty()) =~= Seq::<int>::empty());
            }
            assert(self.shape() == pre.grow());
            pre.lemma_grow_wf();
            assert forall|n: int| self.valid(n) implies ((#[trigger] self.component(n)).scene
                <==> self.under_root(n)) by {
                if n < id {
                    assert(old(self).component(n).scene <==> old(self).under_root(n));
                } else {
                    if self.under_root(n) {
                        let r = self.spec_root()->0;
                        assert(old(self).valid(r as int));
                    }
                }
            }
            assert forall|n: int| self.valid(n) implies ((#[trigger] self.component(n)).has_parent
                <==> (self.component(n).parent is Some || self.is_root(n))) by {
                if n < id {
                    assert(old(self).component(n).has_parent <==> (old(self).component(n).parent
                        is Some || old(self).is_root(n)));
                } else {
                    if self.is_root(n) {
                        assert(old(self).valid(n));
                    }
                }
            }
            self.lemma_lists_kept(old(self), false);
            self.lemma_lists_kept(old(self), true);
        }
        id
    }

    /// A list of `pre` is a list of `self` if `self` has the components of
    /// `pre` as they were and, beyond them, none that is part of the scene.
    proof fn lemma_lists_kept(&self, pre: &Scene, lights: bool)
        requires
            pre.len() <= self.len(),
            forall|i: int| pre.valid(i) ==> #[trigger] self.component(i) == pre.component(i),
            forall|i: int| pre.len() <= i < self.len() ==> !(#[trigger] self.component(i)).scene,
            pre.lists(pre.spec_meshes()@, false),
            pre.lists(pre.spec_lights()@, true),
            self.spec_meshes()@ == pre.spec_meshes()@,
            self.spec_lights()@ == pre.spec_lights()@,
        ensures
            lights ==> self.lists(self.spec_lights()@, true),
            !lights ==> self.lists(self.spec_meshes()@, false),
    {
        let list = if lights {
            self.spec_lights()@
        } else {
            self.spec_meshes()@
        };
        assert(pre.lists(list, lights));
        assert forall|k: int| 0 <= k < list.len() implies {
            &&& self.valid(#[trigger] list[k] as int)
            &&& listable(self.component(list[k] as int).variant, lights)
            &&& self.component(list[k] as int).scene
        } by {
            assert(pre.valid(list[k] as int));
        }
        assert forall|n: int|
            self.valid(n) && listable((#[trigger] self.component(n)).variant, lights)
                && self.component(n).scene implies as_ints(list).contains(n) by {
            assert(pre.valid(n));
            assert(pre.component(n) == self.component(n));
        }
    }

    /// `self` is `pre` after `node` and the subtrees of the first `k`
    /// children of `node` became part of the scene: each component of them
    /// has its flag set and nothing else changed, and each list has grown at
    /// its end by the components of its kind among them, in the order of the
    /// traversal.
    spec fn attached_upto(&self, pre: Scene, node: int, k: int) -> bool {
        &&& self.len() == pre.len()
        &&& self.shape() == pre.shape()
        &&& self.spec_root() == pre.spec_root()
        &&& forall|m: int|
            pre.valid(m) ==> #[trigger] self.component(m) == if pre.shape().covered(node, k, m) {
                ComponentView { scene: true, ..pre.component(m) }
            } else {
                pre.component(m)
            }
        &&& as_ints(self.spec_meshes()@) == as_ints(pre.spec_meshes()@) + picked(
            pre.kinds(false),
            seq![node] + pre.shape().preorder_below(node, k),
        )
        &&& as_ints(self.spec_lights()@) == as_ints(pre.spec_lights()@) + picked(
            pre.kinds(true),
            seq![node] + pre.shape().preorder_below(node, k),
        )
        &&& self.lists(self.spec_meshes()@, false)
        &&& self.lists(self.spec_lights()@, true)
    }

    /// `self` is `pre` after the subtree of `node` became part of the scene:
    /// each component of the subtree has its flag set and nothing else
    /// changed, and each list has grown at its end by the components of its
    /// kind in the subtree, in the order of the traversal.
    spec fn attached_from(&self, pre: Scene, node: int) -> bool {
        &&& self.len() == pre.len()
        &&& self.shape() == pre.shape()
        &&& self.spec_root() == pre.spec_root()
        &&& forall|m: int|
            pre.valid(m) ==> #[trigger] self.component(m) == if pre.shape().reaches(node, m) {
                ComponentView { scene: true, ..pre.component(m) }
            } else {
                pre.component(m)
            }
        &&& as_ints(self.spec_meshes()@) == as_ints(pre.spec_meshes()@) + picked(
            pre.kinds(false),
            pre.shape().preorder(node),
        )
        &&& as_ints(self.spec_lights()@) == as_ints(pre.spec_lights()@) + picked(
            pre.kinds(true),
            pre.shape().preorder(node),
        )
        &&& self.lists(self.spec_meshes()@, false)
        &&& self.lists(self.spec_lights()@, true)
    }

    /// The hook of attachment: a mesh enters the list of meshes, a light the
    /// list of lights, at the end.
    fn added_to_scene(&mut self, node: usize)
        requires
            old(self).valid(node as int),
        ensures
            final(self).nodes == old(self).nodes,
            final(self).root == old(self).root,
            final(self).depth == old(self).depth,
            final(self).tree == old(self).tree,
            final(self).bound == old(self).bound,
            final(self).meshes@ == if old(self).component(node as int).variant is Mesh {
                old(self).meshes@.push(node)
            } else {
                old(self).meshes@
            },
            final(self).lights@ == if old(self).component(node as int).variant is Light {
                old(self).lights@.push(node)
            } else {
                old(self).lights@
            },
    {
        match self.nodes[node].variant() {
            Variant::Mesh(_) => {
                self.meshes.push(node);
            },
            Variant::Light(_) => {
                self.lights.push(node);
            },
            _ => {},
        }
    }

    /// Makes `node` and everything below it part of the scene, parents
    /// before children, children in the order in which they were added.
    fn added_to_scene_recursive(&mut self, node: usize)
        requires
            old(self).linked(),
            old(self).valid(node as int),
            forall|m: int|
                old(self).shape().reaches(node as int, m) ==> !(#[trigger] old(self).component(
                    m,
                )).scene,
            old(self).lists(old(self).spec_meshes()@, false),
            old(self).lists(old(self).spec_lights()@, true),
        ensures
            final(self).attached_from(*old(self), node as int),
            final(self).linked(),
        decreases old(self).shape().bound - old(self).shape().depth[node as int],
    {
        let ghost sh = old(self).shape();
        self.nodes[node].set_scene();
        let ghost flagged = *self;
        self.added_to_scene(node);
        proof {
            flagged.lemma_same_shape(old(self));
            self.lemma_same_shape(old(self));
            assert(sh.reaches(node as int, node as int));
            self.lemma_listed(old(self), node, false);
            self.lemma_listed(old(self), node, true);
            self.lemma_hooked(old(self), node, false);
            self.lemma_hooked(old(self), node, true);
        }
        let count = self.nodes[node].children().len();
        let mut k: usize = 0;
        while k < count
            invariant
                k <= count,
                count == old(self).component(node as int).children.len(),
                sh == old(self).shape(),
                old(self).linked(),
                old(self).valid(node as int),
                forall|m: int|
                    sh.reaches(node as int, m) ==> !(#[trigger] old(self).component(m)).scene,
                self.attached_upto(*old(self), node as int, k as int),
            decreases count - k,
        {
            let child = self.nodes[node].children()[k];
            let ghost before = *self;
            proof {
                assert(self.component(node as int).children == old(self).component(
                    node as int,
                ).children);
                assert(sh.children[node as int][k as int] == child as int);
                assert(sh.valid(child as int) && sh.parents[child as int] == Some(node as int));
                self.lemma_linked_kept(old(self));
                assert forall|m: int| self.shape().reaches(child as int, m) implies !(
                #[trigger] self.component(m)).scene by {
                    sh.lemma_covered_apart(node as int, k as int, m);
                    sh.lemma_reaches_child(node as int, k as int, m);
                }
            }
            self.added_to_scene_recursive(child);
            proof {
                before.lemma_same_kinds(old(self), false);
                before.lemma_same_kinds(old(self), true);
                let walked = seq![node as int] + sh.preorder_below(node as int, k as int);
                let next = sh.preorder(child as int);
                assert(sh.preorder_below(node as int, k + 1) == sh.preorder_below(
                    node as int,
                    k as int,
                ) + next);
                assert(walked + next =~= seq![node as int] + sh.preorder_below(node as int, k + 1));
                lemma_picked_add(old(self).kinds(false), walked, next);
                lemma_picked_add(old(self).kinds(true), walked, next);
                assert(as_ints(self.spec_meshes()@) =~= as_ints(old(self).spec_meshes()@) + picked(
                    old(self).kinds(false),
                    walked + next,
                ));
                assert(as_ints(self.spec_lights()@) =~= as_ints(old(self).spec_lights()@) + picked(
                    old(self).kinds(true),
                    walked + next,
                ));
                assert forall|m: int| old(self).valid(m) implies #[trigger] self.component(m)
                    == if sh.covered(node as int, k + 1, m) {
                    ComponentView { scene: true, ..old(self).component(m) }
                } else {
                    old(self).component(m)
                } by {
                    sh.lemma_covered_next(node as int, k as int, m);
                    assert(before.valid(m));
                    assert(self.component(m) == if sh.reaches(child as int, m) {
                        ComponentView { scene: true, ..before.component(m) }
                    } else {
                        before.component(m)
                    });
                }
            }
            k += 1;
        }
        proof {
            assert forall|m: int| old(self).valid(m) implies #[trigger] self.component(m)
                == if sh.reaches(node as int, m) {
                ComponentView { scene: true, ..old(self).component(m) }
            } else {
                old(self).component(m)
            } by {
                sh.lemma_covered_all(node as int, m);
            }
            self.lemma_linked_kept(old(self));
            assert(sh.preorder(node as int) == seq![node as int] + sh.preorder_below(
                node as int,
                count as int,
            ));
        }
    }

    /// Two scenes whose components are of the same kinds have the same
    /// `kinds`.
    proof fn lemma_same_kinds(&self, pre: &Scene, lights: bool)
        requires
            self.len() == pre.len(),
            forall|m: int|
                pre.valid(m) ==> listable((#[trigger] self.component(m)).variant, lights)
                    == listable(pre.component(m).variant, lights),
        ensures
            self.kinds(lights) == pre.kinds(lights),
    {
        assert forall|i: int| 0 <= i < self.len() implies self.kinds(lights)[i] == pre.kinds(
            lights,
        )[i] by {
            assert(listable(self.component(i).variant, lights) == listable(
                pre.component(i).variant,
                lights,
            ));
        }
        assert(self.kinds(lights) =~= pre.kinds(lights));
    }

    /// After the hook has run for `id`, each list has grown by `id` if it
    /// takes it.
    proof fn lemma_hooked(&self, pre: &Scene, id: usize, lights: bool)
        requires
            pre.valid(id as int),
            pre.linked(),
            self.spec_meshes()@ == if pre.component(id as int).variant is Mesh {
                pre.spec_meshes()@.push(id)
            } else {
                pre.spec_meshes()@
            },
            self.spec_lights()@ == if pre.component(id as int).variant is Light {
                pre.spec_lights()@.push(id)
            } else {
                pre.spec_lights()@
            },
        ensures
            lights ==> as_ints(self.spec_lights()@) == as_ints(pre.spec_lights()@) + picked(
                pre.kinds(true),
                seq![id as int] + pre.shape().preorder_below(id as int, 0),
            ),
            !lights ==> as_ints(self.spec_meshes()@) == as_ints(pre.spec_meshes()@) + picked(
                pre.kinds(false),
                seq![id as int] + pre.shape().preorder_below(id as int, 0),
            ),
    {
        let before = if lights {
            pre.spec_lights()@
        } else {
            pre.spec_meshes()@
        };
        let list = if lights {
            self.spec_lights()@
        } else {
            self.spec_meshes()@
        };
        let one = seq![id as int] + pre.shape().preorder_below(id as int, 0);
        assert(one =~= seq![id as int]);
        lemma_picked_one(pre.kinds(lights), id as int);
        if listable(pre.component(id as int).variant, lights) {
            assert(list == before.push(id));
            assert(as_ints(list) =~= as_ints(before) + seq![id as int]);
        } else {
            assert(list == before);
            assert(as_ints(list) =~= as_ints(before) + Seq::<int>::empty());
        }
    }

    /// A scene with the shape and the links of a linked scene is linked.
    proof fn lemma_linked_kept(&self, pre: &Scene)
        requires
            pre.linked(),
            self.len() == pre.len(),
            self.shape() == pre.shape(),
            forall|m: int|
                pre.valid(m) ==> (#[trigger] self.component(m)).parent == pre.component(m).parent
                    && self.component(m).children == pre.component(m).children,
        ensures
            self.linked(),
    {
        assert forall|i: int| self.valid(i) implies {
            &&& self.shape().parents[i] == as_int((#[trigger] self.component(i)).parent)
            &&& self.shape().children[i] == as_ints(self.component(i).children)
        } by {
            assert(pre.valid(i));
            assert(pre.shape().parents[i] == as_int(pre.component(i).parent));
        }
    }

    /// After the flag of `node` is set and the hook has run, the lists are
    /// the lists of the scene again.
    proof fn lemma_listed(&self, pre: &Scene, id: usize, lights: bool)
        requires
            pre.valid(id as int),
            !pre.component(id as int).scene,
            self.len() == pre.len(),
            forall|m: int|
                pre.valid(m) ==> #[trigger] self.component(m) == if m == id {
                    ComponentView { scene: true, ..pre.component(m) }
                } else {
                    pre.component(m)
                },
            pre.lists(pre.spec_meshes()@, false),
            pre.lists(pre.spec_lights()@, true),
            self.spec_meshes()@ == if pre.component(id as int).variant is Mesh {
                pre.spec_meshes()@.push(id)
            } else {
                pre.spec_meshes()@
            },
            self.spec_lights()@ == if pre.component(id as int).variant is Light {
                pre.spec_lights()@.push(id)
            } else {
                pre.spec_lights()@
            },
        ensures
            lights ==> self.lists(self.spec_lights()@, true),
            !lights ==> self.lists(self.spec_meshes()@, false),
    {
        let node = id as int;
        let before = if lights {
            pre.spec_lights()@
        } else {
            pre.spec_meshes()@
        };
        let list = if lights {
            self.spec_lights()@
        } else {
            self.spec_meshes()@
        };
        let grows = listable(pre.component(node).variant, lights);
        assert(pre.lists(before, lights));
        assert(list == if grows {
            before.push(id)
        } else {
            before
        });
        assert(!before.contains(id)) by {
            if before.contains(id) {
                let k = choose|k: int| 0 <= k < before.len() && before[k] == id;
                assert(pre.component(before[k] as int).scene);
            }
        }
        assert forall|k: int| 0 <= k < list.len() implies {
            &&& self.valid(#[trigger] list[k] as int)
            &&& listable(self.component(list[k] as int).variant, lights)
            &&& self.component(list[k] as int).scene
        } by {
            if k < before.len() {
                assert(pre.valid(before[k] as int));
                assert(self.component(before[k] as int).scene);
            } else {
                assert(self.component(node).scene);
            }
        }
        assert forall|n: int|
            self.valid(n) && listable((#[trigger] self.component(n)).variant, lights)
                && self.component(n).scene implies as_ints(list).contains(n) by {
            assert(pre.valid(n));
            if n == node {
                assert(as_ints(list)[before.len() as int] == n);
            } else {
                assert(pre.component(n) == self.component(n));
                assert(as_ints(before).contains(n));
                let k = choose|k: int| 0 <= k < before.len() && as_ints(before)[k] == n;
                assert(as_ints(list)[k] == n);
            }
        }
        assert(list.no_duplicates()) by {
            assert forall|i: int, j: int| 0 <= i < list.len() && 0 <= j < list.len() && i
                != j implies list[i] != list[j] by {
                if i < before.len() && j < before.len() {
                } else if i < before.len() {
                    assert(before.contains(before[i]));
                } else {
                    assert(before.contains(before[j]));
                }
            }
        }
    }

    /// The lists of `pre` are the lists of `self` if every component is part
    /// of the scene in `self` exactly if it was in `pre`, and of the same kind.
    proof fn lemma_lists_same(&self, pre: &Scene)
        requires
            self.len() == pre.len(),
            forall|m: int|
                pre.valid(m) ==> (#[trigger] self.component(m)).scene == pre.component(m).scene
                    && self.component(m).variant == pre.component(m).variant,
            pre.lists(pre.spec_meshes()@, false),
            pre.lists(pre.spec_lights()@, true),
            self.spec_meshes()@ == pre.spec_meshes()@,
            self.spec_lights()@ == pre.spec_lights()@,
        ensures
            self.lists(self.spec_meshes()@, false),
            self.lists(self.spec_lights()@, true),
    {
        let meshes = self.spec_meshes()@;
        let lights = self.spec_lights()@;
        assert forall|k: int| 0 <= k < meshes.len() implies {
            &&& self.valid(#[trigger] meshes[k] as int)
            &&& listable(self.component(meshes[k] as int).variant, false)
            &&& self.component(meshes[k] as int).scene
        } by {
            assert(pre.valid(meshes[k] as int));
        }
        assert forall|n: int|
            self.valid(n) && listable((#[trigger] self.component(n)).variant, false)
                && self.component(n).scene implies as_ints(meshes).contains(n) by {
            assert(pre.component(n).scene);
        }
        assert forall|k: int| 0 <= k < lights.len() implies {
            &&& self.valid(#[trigger] lights[k] as int)
            &&& listable(self.component(lights[k] as int).variant, true)
            &&& self.component(lights[k] as int).scene
        } by {
            assert(pre.valid(lights[k] as int));
        }
        assert forall|n: int|
            self.valid(n) && listable((#[trigger] self.component(n)).variant, true)
                && self.component(n).scene implies as_ints(lights).contains(n) by {
            assert(pre.component(n).scene);
        }
    }

    /// What `set_root(root)` answers.
    pub open spec fn set_root_outcome(&self, root: usize) -> Result<(), SceneError> {
        if !self.valid(root as int) {
            Err(SceneError::UnknownComponent)
        } else if self.component(root as int).has_parent {
            Err(SceneError::AlreadyParented)
        } else if self.spec_root() is Some {
            Err(SceneError::RootAlreadySet)
        } else {
            Ok(())
        }
    }

    /// `self` is `pre` after `root` became the root: it is the root, it has
    /// been attached, and the components of its tree, and no others, are part
    /// of the scene. Each list has grown at its end by the components of its
    /// kind in the tree of `root`: parents before children, children in the
    /// order in which they were added.
    pub open spec fn rooted(&self, pre: Scene, root: usize) -> bool {
        &&& self.len() == pre.len()
        &&& self.shape() == pre.shape()
        &&& self.spec_root() == Some(root)
        &&& forall|m: int|
            pre.valid(m) ==> #[trigger] self.component(m) == (ComponentView {
                has_parent: pre.component(m).has_parent || m == root,
                scene: pre.shape().tree[m] == root,
                ..pre.component(m)
            })
        &&& as_ints(self.spec_meshes()@) == as_ints(pre.spec_meshes()@) + picked(
            pre.kinds(false),
            pre.shape().preorder(root as int),
        )
        &&& as_ints(self.spec_lights()@) == as_ints(pre.spec_lights()@) + picked(
            pre.kinds(true),
            pre.shape().preorder(root as int),
        )
    }

    /// Makes `root` the root of the graph and its tree part of the scene.
    ///
    /// Refused, with nothing changed, where `root` names no component, where
    /// it has been attached before, and where the scene has a root already.
    pub fn set_root(&mut self, root: usize) -> (outcome: Result<(), SceneError>)
        requires
            old(self).wf(),
        ensures
            final(self).wf(),
            outcome == old(self).set_root_outcome(root),
            outcome is Err ==> *final(self) == *old(self),
            outcome is Ok ==> final(self).rooted(*old(self), root),
    {
        if root >= self.nodes.len() {
            return Err(SceneError::UnknownComponent);
        }
        if self.nodes[root].has_parent() {
            return Err(SceneError::AlreadyParented);
        }
        if self.root.is_some() {
            return Err(SceneError::RootAlreadySet);
        }
        let ghost sh = self.shape();
        self.nodes[root].mark_attached();
        let ghost marked = *self;
        proof {
            self.lemma_same_shape(old(self));
            self.lemma_linked_kept(old(self));
            self.lemma_lists_same(old(self));
            assert forall|m: int| self.shape().reaches(root as int, m) implies !(
            #[trigger] self.component(m)).scene by {
                assert(old(self).component(m).scene <==> old(self).under_root(m));
            }
        }
        self.added_to_scene_recursive(root);
        let ghost attached = *self;
        self.root = Some(root);
        proof {
            marked.lemma_same_kinds(old(self), false);
            marked.lemma_same_kinds(old(self), true);
            assert forall|i: int| self.valid(i) implies #[trigger] self.component(i)
                == attached.component(i) by {}
            self.lemma_same_shape(&attached);
            assert(old(self).component(root as int).parent is None);
            assert(sh.parents[root as int] is None);
            assert forall|m: int| old(self).valid(m) implies #[trigger] self.component(m) == (
            ComponentView {
                has_parent: old(self).component(m).has_parent || m == root,
                scene: sh.tree[m] == root,
                ..old(self).component(m)
            }) by {
                sh.lemma_reaches_tree(root as int, m);
                assert(old(self).component(m).scene <==> old(self).under_root(m));
                assert(self.component(m) == attached.component(m));
                assert(marked.component(m) == (ComponentView {
                    has_parent: old(self).component(m).has_parent || m == root,
                    ..old(self).component(m)
                }));
            }
            assert forall|n: int| self.valid(n) implies ((#[trigger] self.component(n)).has_parent
                <==> (self.component(n).parent is Some || self.is_root(n))) by {
                assert(old(self).component(n).has_parent <==> (old(self).component(n).parent
                    is Some || old(self).is_root(n)));
            }
            self.lemma_linked_kept(old(self));
        }
        Ok(())
    }

    /// What `add(parent, child)` answers.
    pub open spec fn add_outcome(&self, parent: usize, child: usize) -> Result<(), SceneError> {
        if !self.valid(parent as int) || !self.valid(child as int) {
            Err(SceneError::UnknownComponent)
        } else if self.component(child as int).has_parent {
            Err(SceneError::AlreadyParented)
        } else if self.shape().tree[parent as int] == child {
            Err(SceneError::Cycle)
        } else {
            Ok(())
        }
    }

    /// `self` is `pre` after `child` became the last child of `parent`:
    /// `child` has been attached and names its parent, `parent` lists it, and
    /// if `parent` was part of the scene, so is now everything that was in
    /// the tree of `child`, and each list has grown at its end by the
    /// components of its kind in that tree: parents before children, children
    /// in the order in which they were added.
    pub open spec fn added(&self, pre: Scene, parent: usize, child: usize) -> bool {
        &&& self.len() == pre.len()
        &&& self.shape() == pre.shape().link(parent as int, child as int)
        &&& self.spec_root() == pre.spec_root()
        &&& forall|m: int|
            pre.valid(m) ==> #[trigger] self.component(m) == (ComponentView {
                has_parent: pre.component(m).has_parent || m == child,
                scene: pre.component(m).scene || (pre.shape().tree[m] == child && pre.component(
                    parent as int,
                ).scene),
                parent: if m == child {
                    Some(parent)
                } else {
                    pre.component(m).parent
                },
                children: if m == parent {
                    pre.component(m).children.push(child)
                } else {
                    pre.component(m).children
                },
                ..pre.component(m)
            })
        &&& as_ints(self.spec_meshes()@) == as_ints(pre.spec_meshes()@) + if pre.component(
            parent as int,
        ).scene {
            picked(pre.kinds(false), pre.shape().preorder(child as int))
        } else {
            Seq::empty()
        }
        &&& as_ints(self.spec_lights()@) == as_ints(pre.spec_lights()@) + if pre.component(
            parent as int,
        ).scene {
            picked(pre.kinds(true), pre.shape().preorder(child as int))
        } else {
            Seq::empty()
        }
    }

    /// The top of the tree of `node`.
    fn top_of(&self, node: usize) -> (top: usize)
        requires
            self.linked(),
            self.valid(node as int),
        ensures
            top == self.shape().tree[node as int],
    {
        let mut top = node;
        let mut above = self.nodes[top].parent();
        while above.is_some()
            invariant
                self.linked(),
                self.valid(top as int),
                above == self.component(top as int).parent,
                self.shape().tree[top as int] == self.shape().tree[node as int],
            decreases self.shape().depth[top as int],
        {
            proof {
                assert(self.shape().parents[top as int] == as_int(above));
            }
            top = above.unwrap();
            above = self.nodes[top].parent();
        }
        proof {
            assert(self.shape().parents[top as int] == as_int(above));
        }
        top
    }

    /// Makes `child` the last child of `parent`. If `parent` is part of the
    /// scene, `child` and everything below it become part of it: parents
    /// before children, children in the order in which they were added.
    ///
    /// Refused, with nothing changed, where an index names no component,
    /// where `child` has been attached before, and where `child` is the top
    /// of the tree of `parent` (`parent` itself, or above it).
    pub fn add(&mut self, parent: usize, child: usize) -> (outcome: Result<(), SceneError>)
        requires
            old(self).wf(),
        ensures
            final(self).wf(),
            outcome == old(self).add_outcome(parent, child),
            outcome is Err ==> *final(self) == *old(self),
            outcome is Ok ==> final(self).added(*old(self), parent, child),
    {
        if parent >= self.nodes.len() || child >= self.nodes.len() {
            return Err(SceneError::UnknownComponent);
        }
        if self.nodes[child].has_parent() {
            return Err(SceneError::AlreadyParented);
        }
        if self.top_of(parent) == child {
            return Err(SceneError::Cycle);
        }
        let ghost sh = self.shape();
        let ghost p = parent as int;
        let ghost c = child as int;
        proof {
            assert(old(self).component(c).has_parent <==> (old(self).component(c).parent is Some
                || old(self).spec_root() == Some(child)));
            assert(sh.parents[c] == as_int(old(self).component(c).parent));
        }
        self.nodes[child].mark_attached();
        let ghost marked = *self;
        proof {
            self.lemma_same_shape(old(self));
            self.lemma_linked_kept(old(self));
            self.lemma_lists_same(old(self));
        }
        let attach = self.nodes[parent].scene();
        if attach {
            proof {
                assert forall|m: int| self.shape().reaches(c, m) implies !(#[trigger] self.component(
                    m,
                )).scene by {
                    sh.lemma_reaches_tree(c, m);
                    assert(old(self).component(m).scene <==> old(self).under_root(m));
                    if old(self).under_root(m) {
                        assert(old(self).component(c).has_parent);
                    }
                }
            }
            self.added_to_scene_recursive(child);
        }
        let ghost attached = *self;
        proof {
            marked.lemma_same_kinds(old(self), false);
            marked.lemma_same_kinds(old(self), true);
            if !attach {
                assert(as_ints(self.spec_meshes()@) =~= as_ints(old(self).spec_meshes()@)
                    + Seq::<int>::empty());
                assert(as_ints(self.spec_lights()@) =~= as_ints(old(self).spec_lights()@)
                    + Seq::<int>::empty());
            }
        }
        self.nodes[child].set_parent(parent);
        self.nodes[parent].push_child(child);
        proof {
            self.depth@ = sh.link(p, c).depth;
            self.tree@ = sh.link(p, c).tree;
            self.bound@ = sh.link(p, c).bound;
            assert(attached.shape() == sh);
            assert forall|m: int| old(self).valid(m) implies #[trigger] self.component(m) == (
            ComponentView {
                has_parent: old(self).component(m).has_parent || m == child,
                scene: old(self).component(m).scene || (sh.tree[m] == child && old(self).component(
                    p,
                ).scene),
                parent: if m == child {
                    Some(parent)
                } else {
                    old(self).component(m).parent
                },
                children: if m == parent {
                    old(self).component(m).children.push(child)
                } else {
                    old(self).component(m).children
                },
                ..old(self).component(m)
            }) by {
                sh.lemma_reaches_tree(c, m);
                assert(marked.component(m) == (ComponentView {
                    has_parent: old(self).component(m).has_parent || m == child,
                    ..old(self).component(m)
                }));
                assert(attached.component(m) == (ComponentView {
                    scene: marked.component(m).scene || (sh.tree[m] == child && old(self).component(
                        p,
                    ).scene),
                    ..marked.component(m)
                }));
            }
            let linked = sh.link(p, c);
            assert(self.shape().parents =~= linked.parents) by {
                assert forall|i: int| 0 <= i < self.len() implies self.shape().parents[i]
                    == linked.parents[i] by {
                    assert(old(self).valid(i));
                    assert(sh.parents[i] == as_int(old(self).component(i).parent));
                }
            }
            assert(self.shape().children =~= linked.children) by {
                assert forall|i: int| 0 <= i < self.len() implies self.shape().children[i]
                    == linked.children[i] by {
                    assert(old(self).valid(i));
                    assert(sh.children[i] == as_ints(old(self).component(i).children));
                    if i == p {
                        assert(as_ints(old(self).component(i).children.push(child)) =~= as_ints(
                            old(self).component(i).children,
                        ).push(c));
                    }
                }
            }
            assert(self.shape() == linked);
            sh.lemma_link_wf(p, c);
            assert forall|i: int| self.valid(i) implies {
                &&& self.shape().parents[i] == as_int((#[trigger] self.component(i)).parent)
                &&& self.shape().children[i] == as_ints(self.component(i).children)
            } by {
                assert(old(self).valid(i));
            }
            assert forall|n: int| self.valid(n) implies ((#[trigger] self.component(n)).scene
                <==> self.under_root(n)) by {
                assert(old(self).valid(n));
                assert(old(self).component(n).scene <==> old(self).under_root(n));
                assert(old(self).component(p).scene <==> old(self).under_root(p));
                if old(self).under_root(n) && sh.tree[n] == c {
                    assert(old(self).component(c).has_parent);
                }
            }
            assert forall|n: int| self.valid(n) implies ((#[trigger] self.component(n)).has_parent
                <==> (self.component(n).parent is Some || self.is_root(n))) by {
                assert(old(self).valid(n));
                assert(old(self).component(n).has_parent <==> (old(self).component(n).parent
                    is Some || old(self).is_root(n)));
            }
            if self.spec_root() is Some {
                let r = self.spec_root()->0;
                assert(old(self).component(r as int).has_parent <==> (old(self).component(
                    r as int,
                ).parent is Some || old(self).spec_root() == Some(r)));
            }
            self.lemma_lists_same(&attached);
        }
        Ok(())
    }

    /// The global matrix that the component `m` of the subtree of `node` was
    /// given by the traversal that was given `parent` for `node`: `parent`
    /// for `node` itself, and below it the global matrix of the parent of `m`.
    pub open spec fn above(&self, node: int, parent: Matrix4, m: int) -> Matrix4 {
        if m == node {
            parent
        } else {
            self.component(self.component(m).parent->0 as int).transformation@.global
        }
    }

    /// `self` is `pre` but for transformations and what cameras upload, and
    /// but for the subtree of `node` it is `pre`.
    pub open spec fn kept(&self, pre: Scene, node: int) -> bool {
        &&& self.len() == pre.len()
        &&& self.shape() == pre.shape()
        &&& self.spec_root() == pre.spec_root()
        &&& self.spec_meshes()@ == pre.spec_meshes()@
        &&& self.spec_lights()@ == pre.spec_lights()@
        &&& forall|m: int| pre.valid(m) ==> same_frame(pre.component(m), #[trigger] self.component(m))
        &&& forall|m: int|
            pre.valid(m) && !pre.shape().reaches(node, m) ==> #[trigger] self.component(m)
                == pre.component(m)
    }

    /// `self` is `pre` after a traversal from `node` that was given `parent`
    /// and met no fault: every component of the subtree of `node` has been
    /// visited, each with the global matrix that its parent was left with,
    /// and nothing else has changed.
    pub open spec fn traversed<A: Arithmetic>(
        &self,
        pre: Scene,
        node: int,
        parent: Matrix4,
        ops: &A,
    ) -> bool {
        &&& self.kept(pre, node)
        &&& forall|m: int|
            pre.shape().reaches(node, m) ==> visited(
                ops,
                pre.component(m),
                self.above(node, parent, m),
                #[trigger] self.component(m),
            )
    }

    /// `self` is `pre` after a traversal from `node` that was given `parent`
    /// and stopped at the place `j` of its walk: there stands a camera whose
    /// global matrix was found to have no inverse. What the walk passes
    /// before that place has been visited; the camera and what the walk
    /// passes after it are as they were.
    pub open spec fn stopped<A: Arithmetic>(
        &self,
        pre: Scene,
        node: int,
        parent: Matrix4,
        ops: &A,
        j: int,
    ) -> bool {
        let walk = pre.shape().preorder(node);
        &&& 0 <= j < walk.len()
        &&& pre.component(walk[j]).variant is Camera
        &&& ops.inverse_gives(pre.component(walk[j]).transformation@.global, None)
        &&& forall|i: int|
            0 <= i < j ==> visited(
                ops,
                pre.component(walk[i]),
                self.above(node, parent, walk[i]),
                self.component(#[trigger] walk[i]),
            )
        &&& forall|i: int|
            j <= i < walk.len() ==> self.component(#[trigger] walk[i]) == pre.component(walk[i])
    }

    /// What a traversal from `node` has done once `node` and the subtrees of
    /// its first `k` children are visited.
    spec fn updated_upto<A: Arithmetic>(
        &self,
        pre: Scene,
        node: int,
        parent: Matrix4,
        k: int,
        ops: &A,
    ) -> bool {
        &&& self.len() == pre.len()
        &&& self.shape() == pre.shape()
        &&& self.spec_root() == pre.spec_root()
        &&& self.spec_meshes()@ == pre.spec_meshes()@
        &&& self.spec_lights()@ == pre.spec_lights()@
        &&& forall|m: int| pre.valid(m) ==> same_frame(pre.component(m), #[trigger] self.component(m))
        &&& forall|m: int|
            pre.valid(m) && !pre.shape().covered(node, k, m) ==> #[trigger] self.component(m)
                == pre.component(m)
        &&& forall|m: int|
            pre.valid(m) && pre.shape().covered(node, k, m) ==> visited(
                ops,
                pre.component(m),
                self.above(node, parent, m),
                #[trigger] self.component(m),
            )
    }

    /// A scene that differs from a well-formed one at most in
    /// transformations and in what cameras upload is well-formed.
    proof fn lemma_wf_kept(&self, pre: &Scene)
        requires
            pre.wf(),
            self.len() == pre.len(),
            self.shape() == pre.shape(),
            self.spec_root() == pre.spec_root(),
            self.spec_meshes()@ == pre.spec_meshes()@,
            self.spec_lights()@ == pre.spec_lights()@,
            forall|m: int| pre.valid(m) ==> same_frame(pre.component(m), #[trigger] self.component(m)),
        ensures
            self.wf(),
    {
        self.lemma_linked_kept(pre);
        assert forall|n: int| self.valid(n) implies ((#[trigger] self.component(n)).scene
            <==> self.under_root(n)) by {
            assert(pre.component(n).scene <==> pre.under_root(n));
        }
        assert forall|n: int| self.valid(n) implies ((#[trigger] self.component(n)).has_parent <==> (
        self.component(n).parent is Some || self.is_root(n))) by {
            assert(pre.component(n).has_parent <==> (pre.component(n).parent is Some
                || pre.is_root(n)));
        }
        if self.spec_root() is Some {
            let r = self.spec_root()->0 as int;
            assert(same_frame(pre.component(r), self.component(r)));
        }
        let meshes = self.spec_meshes()@;
        let lights = self.spec_lights()@;
        assert forall|k: int| 0 <= k < meshes.len() implies {
            &&& self.valid(#[trigger] meshes[k] as int)
            &&& listable(self.component(meshes[k] as int).variant, false)
            &&& self.component(meshes[k] as int).scene
        } by {
            assert(pre.valid(meshes[k] as int));
            assert(same_frame(pre.component(meshes[k] as int), self.component(meshes[k] as int)));
        }
        assert forall|n: int|
            self.valid(n) && listable((#[trigger] self.component(n)).variant, false)
                && self.component(n).scene implies as_ints(meshes).contains(n) by {
            assert(same_frame(pre.component(n), self.component(n)));
        }
        assert forall|k: int| 0 <= k < lights.len() implies {
            &&& self.valid(#[trigger] lights[k] as int)
            &&& listable(self.component(lights[k] as int).variant, true)
            &&& self.component(lights[k] as int).scene
        } by {
            assert(pre.valid(lights[k] as int));
            assert(same_frame(pre.component(lights[k] as int), self.component(lights[k] as int)));
        }
        assert forall|n: int|
            self.valid(n) && listable((#[trigger] self.component(n)).variant, true)
                && self.component(n).scene implies as_ints(lights).contains(n) by {
            assert(same_frame(pre.component(n), self.component(n)));
        }
    }

    /// A traversal that stops in the subtree of the child `k` of `node`, at
    /// the place `at` of the walk of that child, stops at the place of the
    /// walk of `node` that lies behind `node` and the walks of the children
    /// before `k`.
    proof fn lemma_stopped_below<A: Arithmetic>(
        &self,
        pre: &Scene,
        before: &Scene,
        node: int,
        k: int,
        parent: Matrix4,
        global: Matrix4,
        ops: &A,
        at: int,
    )
        requires
            pre.wf(),
            pre.valid(node),
            0 <= k < pre.shape().children[node].len(),
            before.updated_upto(*pre, node, parent, k, ops),
            global == before.component(node).transformation@.global,
            self.kept(*before, pre.shape().children[node][k]),
            self.stopped(*before, pre.shape().children[node][k], global, ops, at),
        ensures
            self.stopped(*pre, node, parent, ops, 1 + pre.shape().preorder_below(node, k).len() + at),
    {
        let sh = pre.shape();
        let c = sh.children[node][k];
        let count = sh.children[node].len() as int;
        let walk = sh.preorder(node);
        let below = sh.preorder_below(node, count);
        let earlier = sh.preorder_below(node, k);
        let inner = sh.preorder(c);
        let off = 1 + earlier.len();
        let j = off + at;
        assert(sh.valid(c) && sh.parents[c] == Some(node));
        assert(walk == seq![node] + below);
        assert(sh.preorder_below(node, k + 1) == earlier + inner);
        sh.lemma_below_later(node, k, k + 1, 0);
        sh.lemma_below_later(node, k + 1, count, 0);
        assert(!sh.reaches(c, node)) by {
            if sh.reaches(c, node) {
                sh.lemma_reaches_below(c, node);
            }
        }
        assert(self.component(node) == before.component(node));
        assert forall|t: int| 0 <= t < inner.len() implies walk[off + t] == inner[t] && sh.reaches(
            c,
            inner[t],
        ) && !sh.covered(node, k, inner[t]) && before.component(inner[t]) == pre.component(
            inner[t],
        ) by {
            assert(below[earlier.len() + t] == sh.preorder_below(node, k + 1)[earlier.len() + t]);
            sh.lemma_preorder_reaches(c, t);
            sh.lemma_covered_apart(node, k, inner[t]);
        }
        assert(walk[j] == inner[at]);
        assert forall|i: int| 0 <= i < j implies visited(
            ops,
            pre.component(walk[i]),
            self.above(node, parent, walk[i]),
            self.component(#[trigger] walk[i]),
        ) by {
            let x = walk[i];
            if i >= off {
                let t = i - off;
                assert(x == inner[t]);
                assert(visited(
                    ops,
                    before.component(inner[t]),
                    self.above(c, global, inner[t]),
                    self.component(inner[t]),
                ));
                assert(same_frame(pre.component(x), self.component(x))) by {
                    assert(same_frame(before.component(x), self.component(x)));
                }
                assert(sh.parents[x] == as_int(pre.component(x).parent));
                sh.lemma_reaches_child(node, k, x);
            } else {
                if i > 0 {
                    assert(x == earlier[i - 1]) by {
                        assert(below[i - 1] == earlier[i - 1]);
                    }
                    let l = sh.lemma_below_reaches(node, k, i - 1);
                    assert(sh.covered(node, k, x));
                }
                assert(sh.covered(node, k, x));
                sh.lemma_covered_reaches(node, k, x);
                if sh.reaches(c, x) {
                    sh.lemma_covered_apart(node, k, x);
                }
                assert(self.component(x) == before.component(x));
                assert(visited(
                    ops,
                    pre.component(x),
                    before.above(node, parent, x),
                    before.component(x),
                ));
                assert(same_frame(pre.component(x), before.component(x)));
                if x != node {
                    sh.lemma_covered_parent(node, k, x);
                    let px = sh.parents[x]->0;
                    assert(sh.parents[x] == as_int(pre.component(x).parent));
                    if sh.reaches(c, px) {
                        sh.lemma_covered_apart(node, k, px);
                    }
                    assert(sh.valid(px));
                    assert(self.component(px) == before.component(px));
                }
            }
        }
        assert forall|i: int| j <= i < walk.len() implies self.component(#[trigger] walk[i])
            == pre.component(walk[i]) by {
            let x = walk[i];
            if i < off + inner.len() {
                let t = i - off;
                assert(x == inner[t]);
                assert(self.component(inner[t]) == before.component(inner[t]));
            } else {
                let l = sh.lemma_below_later(node, k + 1, count, i - 1);
                assert(x == below[i - 1]);
                assert(sh.reaches(sh.children[node][l], x));
                sh.lemma_covered_apart(node, l, x);
                if sh.covered(node, k, x) {
                    sh.lemma_covered_more(node, k, l, x);
                }
                if sh.reaches(c, x) {
                    assert(sh.covered(node, k + 1, x));
                    sh.lemma_covered_more(node, k + 1, l, x);
                }
                sh.lemma_reaches_child(node, l, x);
                assert(pre.valid(x));
                assert(before.component(x) == pre.component(x));
                assert(self.component(x) == before.component(x));
            }
        }
    }

    /// Brings the subtree of `node` up to date, given the global matrix
    /// `parent_transformation` of what is above `node`. Each component is
    /// visited before its children, the children in the order in which they
    /// were added. A visit runs the hook `update` of the component, then
    /// `update_local(false)` and `update_global` on its transformation with
    /// the global matrix of its parent as that visit left it.
    ///
    /// Fails where `node` names no component, and stops at the first camera
    /// whose global matrix has no inverse: what was visited before it stays
    /// visited, the camera and what would have come after it stay as they
    /// were. The links, the attachment and the lists never change.
    pub fn update_recursive<A: Arithmetic>(
        &mut self,
        node: usize,
        parent_transformation: &Matrix4,
        ops: &A,
    ) -> (outcome: Result<(), SceneError>)
        requires
            old(self).wf(),
            ops.total(),
        ensures
            final(self).wf(),
            !old(self).valid(node as int) ==> (outcome == Err::<(), SceneError>(
                SceneError::UnknownComponent,
            ) && *final(self) == *old(self)),
            old(self).valid(node as int) ==> final(self).kept(*old(self), node as int),
            old(self).valid(node as int) ==> match outcome {
                Ok(_) => final(self).traversed(
                    *old(self),
                    node as int,
                    *parent_transformation,
                    ops,
                ),
                Err(e) => e == SceneError::SingularTransformation && exists|j: int|
                    #[trigger] final(self).stopped(
                        *old(self),
                        node as int,
                        *parent_transformation,
                        ops,
                        j,
                    ),
            },
        decreases old(self).shape().bound - old(self).shape().depth[node as int],
    {
        if node >= self.nodes.len() {
            return Err(SceneError::UnknownComponent);
        }
        let ghost sh = self.shape();
        let ghost n = node as int;
        let ghost parent = *parent_transformation;
        proof {
            assert(sh.reaches(n, n));
        }
        if self.nodes[node].update(ops).is_err() {
            proof {
                assert forall|i: int| self.valid(i) implies #[trigger] self.component(i) == old(
                    self,
                ).component(i) by {}
                self.lemma_same_shape(old(self));
                self.lemma_wf_kept(old(self));
                let walk = sh.preorder(n);
                assert(walk[0] == n);
                assert forall|i: int| 0 <= i < walk.len() implies self.component(
                    #[trigger] walk[i],
                ) == old(self).component(walk[i]) by {
                    sh.lemma_preorder_reaches(n, i);
                }
                assert(self.stopped(*old(self), n, parent, ops, 0));
            }
            return Err(SceneError::SingularTransformation);
        }
        self.nodes[node].refresh(parent_transformation, ops);
        proof {
            assert forall|i: int| self.valid(i) && i != n implies #[trigger] self.component(i)
                == old(self).component(i) by {}
            self.lemma_same_shape(old(self));
            assert(visited(ops, old(self).component(n), parent, self.component(n)));
            assert forall|m: int| old(self).valid(m) implies same_frame(
                old(self).component(m),
                #[trigger] self.component(m),
            ) by {
                if m != n {
                    assert(self.component(m) == old(self).component(m));
                }
            }
        }
        let global = *self.nodes[node].transformation().global_transformation();
        let count = self.nodes[node].children().len();
        let mut k: usize = 0;
        while k < count
            invariant
                k <= count,
                count == old(self).component(n).children.len(),
                n == node as int,
                parent == *parent_transformation,
                sh == old(self).shape(),
                old(self).wf(),
                old(self).valid(n),
                ops.total(),
                self.updated_upto(*old(self), n, parent, k as int, ops),
                global == self.component(n).transformation@.global,
            decreases count - k,
        {
            let child = self.nodes[node].children()[k];
            let ghost before = *self;
            let ghost c = child as int;
            proof {
                assert(same_frame(old(self).component(n), self.component(n)));
                assert(sh.children[n] == as_ints(old(self).component(n).children));
                assert(sh.children[n][k as int] == c);
                assert(sh.valid(c) && sh.parents[c] == Some(n));
                self.lemma_wf_kept(old(self));
            }
            let outcome = self.update_recursive(child, &global, ops);
            proof {
                assert forall|m: int| old(self).valid(m) implies same_frame(
                    old(self).component(m),
                    #[trigger] self.component(m),
                ) by {
                    assert(same_frame(old(self).component(m), before.component(m)));
                    assert(same_frame(before.component(m), self.component(m)));
                }
                assert forall|m: int| old(self).valid(m) && !sh.reaches(n, m) implies #[trigger] self.component(
                    m,
                ) == old(self).component(m) by {
                    if sh.covered(n, k as int, m) {
                        sh.lemma_covered_reaches(n, k as int, m);
                    }
                    if sh.reaches(c, m) {
                        sh.lemma_reaches_child(n, k as int, m);
                    }
                    assert(before.component(m) == old(self).component(m));
                }
            }
            match outcome {
                Err(e) => {
                    proof {
                        let at = choose|at: int| #[trigger] self.stopped(before, c, global, ops, at);
                        self.lemma_stopped_below(
                            old(self),
                            &before,
                            n,
                            k as int,
                            parent,
                            global,
                            ops,
                            at,
                        );
                    }
                    return Err(e);
                },
                Ok(_) => {},
            }
            proof {
                assert(!sh.reaches(c, n)) by {
                    if sh.reaches(c, n) {
                        sh.lemma_reaches_below(c, n);
                    }
                }
                assert(self.component(n) == before.component(n));
                assert forall|m: int|
                    old(self).valid(m) && !sh.covered(n, k + 1, m) implies #[trigger] self.component(m)
                    == old(self).component(m) by {
                    sh.lemma_covered_next(n, k as int, m);
                    assert(before.component(m) == old(self).component(m));
                }
                assert forall|m: int| old(self).valid(m) && sh.covered(n, k + 1, m) implies visited(
                    ops,
                    old(self).component(m),
                    self.above(n, parent, m),
                    #[trigger] self.component(m),
                ) by {
                    sh.lemma_covered_next(n, k as int, m);
                    assert(same_frame(old(self).component(m), self.component(m)));
                    assert(same_frame(old(self).component(m), before.component(m)));
                    assert(sh.parents[m] == as_int(old(self).component(m).parent));
                    if sh.reaches(c, m) {
                        sh.lemma_covered_apart(n, k as int, m);
                        assert(before.component(m) == old(self).component(m));
                        assert(visited(
                            ops,
                            before.component(m),
                            self.above(c, global, m),
                            self.component(m),
                        ));
                    } else {
                        assert(self.component(m) == before.component(m));
                        assert(visited(
                            ops,
                            old(self).component(m),
                            before.above(n, parent, m),
                            before.component(m),
                        ));
                        if m != n {
                            sh.lemma_covered_parent(n, k as int, m);
                            let pm = sh.parents[m]->0;
                            if sh.reaches(c, pm) {
                                sh.lemma_covered_apart(n, k as int, pm);
                            }
                            assert(sh.valid(pm));
                            assert(self.component(pm) == before.component(pm));
                        }
                    }
                }
            }
            k += 1;
        }
        proof {
            self.lemma_wf_kept(old(self));
            assert forall|m: int| old(self).valid(m) && !sh.reaches(n, m) implies #[trigger] self.component(
                m,
            ) == old(self).component(m) by {
                sh.lemma_covered_all(n, m);
            }
            assert forall|m: int| sh.reaches(n, m) implies visited(
                ops,
                old(self).component(m),
                self.above(n, parent, m),
                #[trigger] self.component(m),
            ) by {
                sh.lemma_covered_all(n, m);
            }
        }
        Ok(())
    }

    /// The meshes that are drawn: those of the list of meshes, in its order.
    pub open spec fn drawn(&self) -> Seq<Mesh> {
        Seq::new(
            self.spec_meshes()@.len(),
            |k: int| self.component(self.spec_meshes()@[k] as int).variant->Mesh_0,
        )
    }

    /// The list of meshes names meshes.
    pub proof fn lemma_drawn(&self, k: int)
        requires
            self.wf(),
            0 <= k < self.spec_meshes()@.len(),
        ensures
            self.valid(self.spec_meshes()@[k] as int),
            self.component(self.spec_meshes()@[k] as int).variant == Variant::Mesh(self.drawn()[k]),
    {
    }

    /// What `render(camera, acquired)` answers with where it fails.
    pub open spec fn render_fault(&self, camera: usize, acquired: bool) -> Option<RenderError> {
        if !self.valid(camera as int) || !(self.component(camera as int).variant is Camera) {
            Some(RenderError::NotACamera)
        } else if !acquired {
            Some(RenderError::AcquireTimeout)
        } else if !self.component(camera as int).scene {
            Some(RenderError::Detached)
        } else {
            None
        }
    }

    /// Composes one frame as the camera at `camera` sees it. The caller has
    /// tried to acquire a target before and says in `acquired` whether it got
    /// one.
    ///
    /// Fails where `camera` names no camera, where no target was acquired,
    /// and where the camera is not part of the scene, in this order.
    /// Otherwise the frame clears the target and draws every mesh of the
    /// list of meshes, in order, with what the camera uploads.
    pub fn render(&self, camera: usize, acquired: bool) -> (outcome: Result<Frame, RenderError>)
        requires
            self.wf(),
        ensures
            match self.render_fault(camera, acquired) {
                Some(fault) => outcome matches Err(e) && e == fault,
                None => outcome matches Ok(frame) && is_frame(
                    frame,
                    self.component(camera as int).variant->Camera_0.data,
                    self.drawn(),
                ),
            },
    {
        let component = match self.get(camera) {
            Some(component) => component,
            None => {
                return Err(RenderError::NotACamera);
            },
        };
        match component.variant() {
            Variant::Camera(eye) => {
                if component.scene() {
                    eye.render(Some(self), acquired)
                } else {
                    eye.render(None, acquired)
                }
            },
            _ => Err(RenderError::NotACamera),
        }
    }

    /// Takes the new size of the surface of the camera at `camera`. Fails,
    /// and changes nothing, where `camera` names no camera.
    pub fn resize(&mut self, camera: usize, width: u32, height: u32) -> (outcome: Result<
        (),
        RenderError,
    >)
        requires
            old(self).wf(),
        ensures
            final(self).wf(),
            final(self).kept(*old(self), camera as int),
            old(self).valid(camera as int) && old(self).component(camera as int).variant
                is Camera ==> (outcome is Ok && final(self).component(camera as int) == (
            ComponentView {
                variant: Variant::Camera(
                    RenderCamera {
                        width,
                        height,
                        ..old(self).component(camera as int).variant->Camera_0
                    },
                ),
                ..old(self).component(camera as int)
            })),
            !(old(self).valid(camera as int) && old(self).component(camera as int).variant
                is Camera) ==> (outcome == Err::<(), RenderError>(RenderError::NotACamera)
                && *final(self) == *old(self)),
    {
        if camera >= self.nodes.len() {
            proof {
                self.lemma_unchanged();
            }
            return Err(RenderError::NotACamera);
        }
        match self.nodes[camera].variant() {
            Variant::Camera(eye) => {
                let mut eye = *eye;
                eye.resize(width, height);
                self.nodes[camera].set_camera(eye);
                proof {
                    assert(old(self).shape().reaches(camera as int, camera as int));
                    assert forall|i: int| self.valid(i) && i != camera implies #[trigger] self.component(
                        i,
                    ) == old(self).component(i) by {}
                    self.lemma_same_shape(old(self));
                    assert forall|m: int| old(self).valid(m) implies same_frame(
                        old(self).component(m),
                        #[trigger] self.component(m),
                    ) by {
                        if m != camera {
                            assert(self.component(m) == old(self).component(m));
                        }
                    }
                    self.lemma_wf_kept(old(self));
                }
                Ok(())
            },
            _ => {
                proof {
                    self.lemma_unchanged();
                }
                Err(RenderError::NotACamera)
            },
        }
    }

    /// A scene is kept by doing nothing.
    proof fn lemma_unchanged(&self)
        ensures
            forall|node: int| self.kept(*self, node),
    {
    }

    /// Replaces the transformation of the component at `id`. Fails, and
    /// changes nothing, where `id` names no component.
    pub fn set_transformation(&mut self, id: usize, transformation: Transformation) -> (outcome:
        Result<(), SceneError>)
        requires
            old(self).wf(),
        ensures
            final(self).wf(),
            final(self).kept(*old(self), id as int),
            old(self).valid(id as int) ==> (outcome is Ok && final(self).component(id as int) == (
            ComponentView { transformation, ..old(self).component(id as int) })),
            !old(self).valid(id as int) ==> (outcome == Err::<(), SceneError>(
                SceneError::UnknownComponent,
            ) && *final(self) == *old(self)),
    {
        if id >= self.nodes.len() {
            proof {
                self.lemma_unchanged();
            }
            return Err(SceneError::UnknownComponent);
        }
        self.nodes[id].set_transformation(transformation);
        proof {
            assert(old(self).shape().reaches(id as int, id as int));
            assert forall|i: int| self.valid(i) && i != id implies #[trigger] self.component(i)
                == old(self).component(i) by {}
            self.lemma_same_shape(old(self));
            assert forall|m: int| old(self).valid(m) implies same_frame(
                old(self).component(m),
                #[trigger] self.component(m),
            ) by {
                if m != id {
                    assert(self.component(m) == old(self).component(m));
                }
            }
            self.lemma_wf_kept(old(self));
        }
        Ok(())
    }

    /// How many components the arena holds.
    pub fn count(&self) -> (count: usize)
        ensures
            count == self.len(),
    {
        self.nodes.len()
    }

    /// The component at `id`, if there is one.
    pub fn get(&self, id: usize) -> (component: Option<&Component>)
        ensures
            self.valid(id as int) ==> (component matches Some(c) && c@ == self.component(id as int)),
            !self.valid(id as int) ==> component is None,
    {
        if id < self.nodes.len() {
            Some(&self.nodes[id])
        } else {
            None
        }
    }

    /// The root of the graph, once it is set.
    #[verifier::when_used_as_spec(spec_root)]
    pub fn root(&self) -> (root: Option<usize>)
        ensures
            root == self.spec_root(),
    {
        self.root
    }

    /// The meshes that are part of the scene, in the order in which they
    /// became part of it.
    #[verifier::when_used_as_spec(spec_meshes)]
    pub fn meshes(&self) -> (meshes: &Vec<usize>)
        ensures
            meshes == self.spec_meshes(),
    {
        &self.meshes
    }

    /// The lights that are part of the scene, in the order in which they
    /// became part of it.
    #[verifier::when_used_as_spec(spec_lights)]
    pub fn lights(&self) -> (lights: &Vec<usize>)
        ensures
            lights == self.spec_lights(),
    {
        &self.lights
    }
}

} // verus!
