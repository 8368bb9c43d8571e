//! The render traversal: a walk over the objects below a starting object
//! that keeps the stack of their transforms and collects what is to be
//! drawn.

use crate::assets::{AssetHandle, HandleView};
use crate::component::{Component, ComponentView};
use crate::graph::SceneView;
use crate::mesh_filter::{MeshFilter, MeshFilterView};
use crate::model::{Material, Mesh};
use crate::scene::{Scene, SceneObject};
use crate::transform::{Transform, TransformStack};
use vstd::prelude::*;
use vstd::string::StringExecFns;

verus! {

/// What is drawn for one object: the object, the mesh, the material if
/// there is one, and the factors of the world transform, outermost first.
pub struct DrawUnit {
    pub label: String,
    pub object: SceneObject,
    pub mesh: AssetHandle<Mesh>,
    pub material: Option<AssetHandle<Material>>,
    pub transforms: Vec<Transform>,
}

/// A [`DrawUnit`] as a mathematical value.
pub struct DrawUnitView {
    pub label: Seq<char>,
    pub object: SceneObject,
    pub mesh: HandleView,
    pub material: Option<HandleView>,
    pub transforms: Seq<Transform>,
}

impl View for DrawUnit {
    type V = DrawUnitView;

    open spec fn view(&self) -> DrawUnitView {
        DrawUnitView {
            label: self.label@,
            object: self.object,
            mesh: self.mesh@,
            material: match self.material {
                Some(handle) => Some(handle@),
                None => None,
            },
            transforms: self.transforms@,
        }
    }
}

/// The views of the units of `units`.
pub open spec fn unit_views(units: Seq<DrawUnit>) -> Seq<DrawUnitView> {
    units.map(|i: int, unit: DrawUnit| unit@)
}

/// The label of the unit drawn for an object named `name`.
pub open spec fn bundle_label(name: Seq<char>) -> Seq<char> {
    "Render Bundle for: "@ + name
}

/// The list of a unit that may be missing.
pub open spec fn unit_list(unit: Option<DrawUnitView>) -> Seq<DrawUnitView> {
    match unit {
        Some(unit) => seq![unit],
        None => Seq::empty(),
    }
}

impl MeshFilterView {
    /// What the mesh filter draws in `scene` under the transforms `chain`:
    /// nothing without a mesh; otherwise a unit of its owner, its mesh and
    /// its material, labelled with the name of the owner.
    pub open spec fn draw(self, scene: SceneView, chain: Seq<Transform>) -> Option<DrawUnitView> {
        match self.mesh {
            None => None,
            Some(mesh) => Some(
                DrawUnitView {
                    label: bundle_label(scene.object(self.owner->0).name),
                    object: self.owner->0,
                    mesh,
                    material: self.material,
                    transforms: chain,
                },
            ),
        }
    }
}

impl SceneView {
    /// The local transform of `object`.
    pub open spec fn transform_of(self, object: SceneObject) -> Transform {
        self.object(object).components.transform
    }

    /// What is drawn for `object` itself under the transforms `chain`: what
    /// its mesh filter draws, if it has one.
    pub open spec fn unit_of(self, object: SceneObject, chain: Seq<Transform>) -> Option<
        DrawUnitView,
    > {
        match self.object(object).components.find(MeshFilter::IDENT@) {
            Some(ComponentView::MeshFilter(filter)) => filter.draw(self, chain),
            None => None,
        }
    }

    /// What is drawn for `object` and the objects below it, in the order of
    /// [`SceneView::preorder`], when the transforms `outer` are in force above
    /// `object`: each object is drawn under the transforms of the objects on
    /// the way down to it, from the outermost to its own.
    pub open spec fn draws(self, object: SceneObject, outer: Seq<Transform>) -> Seq<DrawUnitView>
        decreases self.rank_of(object), 1int, 0int,
        when self.visitable(object)
    {
        let chain = outer.push(self.transform_of(object));
        unit_list(self.unit_of(object, chain)) + self.draws_of_children(object, 0, chain)
    }

    /// What is drawn for the children of `object` from the `k`-th on and
    /// for the objects below them, under the transforms `chain`.
    pub open spec fn draws_of_children(
        self,
        object: SceneObject,
        k: int,
        chain: Seq<Transform>,
    ) -> Seq<DrawUnitView>
        decreases self.rank_of(object), 0int, self.children_of(object).len() - k,
        when self.visitable(object) && 0 <= k
    {
        if k < self.children_of(object).len() {
            proof {
                self.lemma_child_ranks_below(object, k);
            }
            self.draws(self.children_of(object)[k], chain) + self.draws_of_children(
                object,
                k + 1,
                chain,
            )
        } else {
            Seq::empty()
        }
    }
}

impl MeshFilter {
    /// What the mesh filter contributes to a frame: nothing without a mesh;
    /// otherwise one unit that refers to the mesh and the material and
    /// carries the transforms on the stack.
    pub fn render(&self, scene: &Scene, transform_stack: &TransformStack) -> (unit: Option<
        DrawUnit,
    >)
        requires
            self@.mesh is Some ==> self@.owner is Some && scene@.contains(self@.owner->0),
        ensures
            unit is Some <==> self@.draw(scene@, transform_stack@) is Some,
            unit matches Some(unit) ==> Some(unit@) == self@.draw(scene@, transform_stack@),
    {
        match self.mesh() {
            None => None,
            Some(mesh) => {
                let owner = self.owner().unwrap();
                let mut label = "Render Bundle for: ".to_owned();
                let name = owner.name(scene);
                label.append(name.as_str());
                let material = match self.material() {
                    Some(material) => Some(material.clone()),
                    None => None,
                };
                Some(
                    DrawUnit {
                        label,
                        object: owner,
                        mesh: mesh.clone(),
                        material,
                        transforms: transform_stack.eval(),
                    },
                )
            },
        }
    }
}

/// Walks the objects at and below `obj`: pushes the transform of each object
/// when it arrives there, collects what its mesh filter draws, walks its
/// children in their order, and pops the transform when it leaves. The stack
/// is left as it was found.
pub fn render_scene_obj(scene: &Scene, obj: SceneObject, transform_stack: &mut TransformStack) -> (bundles:
    Vec<DrawUnit>)
    requires
        scene@.visitable(obj),
    ensures
        unit_views(bundles@) == scene@.draws(obj, old(transform_stack)@),
        final(transform_stack)@ == old(transform_stack)@,
    decreases scene@.rank_of(obj),
{
    let ghost outer = transform_stack@;
    transform_stack.push(obj.get_transform(scene));
    let ghost chain = transform_stack@;
    let mut bundles: Vec<DrawUnit> = Vec::new();
    proof {
        assert(scene@.object(obj).components.attached(obj));
    }
    match obj.get_component(scene, MeshFilter::IDENT) {
        Some(handle) => {
            match handle.get(scene) {
                Component::MeshFilter(filter) => {
                    proof {
                        assert(scene@.object(obj).components.components[handle.slot as int].owner()
                            == Some(obj));
                    }
                    match filter.render(scene, transform_stack) {
                        Some(unit) => {
                            bundles.push(unit);
                        },
                        None => {},
                    }
                },
            }
        },
        None => {},
    }
    proof {
        assert(unit_views(bundles@) =~= unit_list(scene@.unit_of(obj, chain)));
    }
    let children = obj.children(scene);
    let mut k: usize = 0;
    while k < children.len()
        invariant
            k <= children.len(),
            children@ == scene@.children_of(obj),
            scene@.visitable(obj),
            transform_stack@ == chain,
            unit_views(bundles@) + scene@.draws_of_children(obj, k as int, chain) == unit_list(
                scene@.unit_of(obj, chain),
            ) + scene@.draws_of_children(obj, 0, chain),
        decreases children.len() - k,
    {
        let child = children[k];
        proof {
            scene@.lemma_child_ranks_below(obj, k as int);
        }
        let mut below = render_scene_obj(scene, child, transform_stack);
        let ghost before = unit_views(bundles@);
        let ghost added = unit_views(below@);
        bundles.append(&mut below);
        proof {
            assert(unit_views(bundles@) =~= before + added);
            assert((before + added) + scene@.draws_of_children(obj, k + 1, chain) =~= before
                + scene@.draws_of_children(obj, k as int, chain));
        }
        k = k + 1;
    }
    transform_stack.pop();
    proof {
        assert(unit_views(bundles@) + Seq::<DrawUnitView>::empty() =~= unit_views(bundles@));
        assert(chain.drop_last() =~= outer);
    }
    bundles
}

/// What is drawn for a scene: the units of the walk from its root, under an
/// empty stack of transforms.
pub fn render_scene(scene: &Scene) -> (bundles: Vec<DrawUnit>)
    requires
        scene@.wf(),
        scene@.acyclic(),
    ensures
        unit_views(bundles@) == scene@.draws(scene@.root, Seq::empty()),
{
    let mut transform_stack = TransformStack::new();
    render_scene_obj(scene, scene.root(), &mut transform_stack)
}

/// Among what is drawn for the children of `object` from the `from`-th on
/// stands, in one piece, what is drawn for the `k`-th child.
proof fn lemma_child_segment(
    scene: SceneView,
    object: SceneObject,
    from: int,
    k: int,
    chain: Seq<Transform>,
) -> (start: int)
    requires
        scene.visitable(object),
        0 <= from <= k < scene.children_of(object).len(),
    ensures
        0 <= start,
        start + scene.draws(scene.children_of(object)[k], chain).len() <= scene.draws_of_children(
            object,
            from,
            chain,
        ).len(),
        scene.draws_of_children(object, from, chain).subrange(
            start,
            start + scene.draws(scene.children_of(object)[k], chain).len(),
        ) == scene.draws(scene.children_of(object)[k], chain),
    decreases k - from,
{
    let part = scene.draws(scene.children_of(object)[k], chain);
    let first = scene.draws(scene.children_of(object)[from], chain);
    let rest = scene.draws_of_children(object, from + 1, chain);
    assert(scene.draws_of_children(object, from, chain) == first + rest);
    if from == k {
        assert((first + rest).subrange(0, first.len() as int) =~= first);
        0
    } else {
        let inner = lemma_child_segment(scene, object, from + 1, k, chain);
        assert((first + rest).subrange(first.len() + inner, first.len() + inner + part.len())
            =~= rest.subrange(inner, inner + part.len()));
        first.len() + inner
    }
}

/// A child is drawn under its parent: what is drawn for the child and the
/// objects below it stands in one piece among what is drawn for the parent,
/// and the unit of the child itself carries the transforms in force above
/// the parent, then that of the parent, then its own. Their matrices,
/// multiplied from left to right, give the world transform of the child.
pub proof fn lemma_child_drawn_under_parent(
    scene: SceneView,
    parent: SceneObject,
    k: int,
    outer: Seq<Transform>,
) -> (start: int)
    requires
        scene.visitable(parent),
        0 <= k < scene.children_of(parent).len(),
    ensures
        ({
            let child = scene.children_of(parent)[k];
            let chain = outer.push(scene.transform_of(parent));
            let part = scene.draws(child, chain);
            let whole = scene.draws(parent, outer);
            &&& 0 <= start
            &&& start + part.len() <= whole.len()
            &&& whole.subrange(start, start + part.len()) == part
            &&& scene.unit_of(child, chain.push(scene.transform_of(child))) matches Some(unit) ==> {
                &&& part.len() > 0
                &&& part[0] == unit
                &&& unit.transforms == outer.push(scene.transform_of(parent)).push(
                    scene.transform_of(child),
                )
            }
        }),
{
    let child = scene.children_of(parent)[k];
    let chain = outer.push(scene.transform_of(parent));
    let part = scene.draws(child, chain);
    let own = unit_list(scene.unit_of(parent, chain));
    let below = scene.draws_of_children(parent, 0, chain);
    scene.lemma_child_ranks_below(parent, k);
    let inner = lemma_child_segment(scene, parent, 0, k, chain);
    assert((own + below).subrange(own.len() + inner, own.len() + inner + part.len())
        =~= below.subrange(inner, inner + part.len()));
    own.len() + inner
}

} // verus!
