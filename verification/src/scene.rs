//! The scene graph: its objects live in an arena owned by the scene and are
//! named by handles.

use crate::component::{
    lemma_attached_keeps_ident, Component, ComponentContainer, ComponentHandle,
    ComponentIdentifier, ComponentPacker, ContainerView,
};
use crate::graph::{
    lemma_add_child_acyclic, lemma_add_child_wf, lemma_chain_ends, lemma_rank_bound,
    lemma_remove_child_acyclic, lemma_remove_child_wf, lemma_same_links, rank_bound, ObjectView,
    SceneView,
};
use crate::identity::{is_fresh_uuid_text, new_uuid, Uuid};
use crate::text::str_eq;
use crate::transform::Transform;
use vstd::prelude::*;
use vstd::string::StringExecFns;

verus! {

/// A handle to an object of a scene: its place in the arena of the scene.
/// Copies of a handle name the same object.
#[derive(Clone, Copy, Debug, PartialEq, Eq, Structural, Hash)]
pub struct SceneObject {
    pub index: usize,
}

/// What the arena keeps of one object.
pub struct InterSceneObject {
    name: String,
    uuid: Uuid,
    components: ComponentContainer,
    childs: Vec<SceneObject>,
    parent: Option<SceneObject>,
}

impl View for InterSceneObject {
    type V = ObjectView;

    closed spec fn view(&self) -> ObjectView {
        ObjectView {
            name: self.name@,
            id: self.uuid@,
            components: self.components@,
            children: self.childs@,
            parent: self.parent,
        }
    }
}

/// A scene: the arena of its objects, its root, and the identity of the
/// object that is selected in the editor.
pub struct Scene {
    name: String,
    uuid: Uuid,
    root: SceneObject,
    selected: Option<Uuid>,
    objects: Vec<InterSceneObject>,
}

impl View for Scene {
    type V = SceneView;

    closed spec fn view(&self) -> SceneView {
        SceneView {
            name: self.name@,
            id: self.uuid@,
            root: self.root,
            selected: match self.selected {
                Some(id) => Some(id@),
                None => None,
            },
            objects: self.objects@.map(|i: int, object: InterSceneObject| object@),
        }
    }
}

/// What a newly made object holds: its name and identity, the identity
/// transform, no components, no children and no parent.
pub open spec fn fresh_object(name: Seq<char>, id: Seq<char>, object: SceneObject) -> ObjectView {
    ObjectView {
        name,
        id,
        components: ContainerView {
            transform: Transform::identity(),
            components: Seq::empty(),
            owner: Some(object),
        },
        children: Seq::empty(),
        parent: None,
    }
}

impl SceneView {
    /// The handle that the next new object gets.
    pub open spec fn next_object(self) -> SceneObject {
        SceneObject { index: self.objects.len() as usize }
    }

    /// The scene with one more object, newly made.
    pub open spec fn with_new_object(self, name: Seq<char>, id: Seq<char>) -> SceneView {
        SceneView { objects: self.objects.push(fresh_object(name, id, self.next_object())), ..self }
    }
}

/// A new object leaves a well-formed scene well formed, and an acyclic one
/// acyclic.
pub proof fn lemma_new_object(scene: SceneView, name: Seq<char>, id: Seq<char>)
    requires
        scene.wf(),
        scene.objects.len() < usize::MAX,
    ensures
        scene.with_new_object(name, id).wf(),
        scene.acyclic() ==> scene.with_new_object(name, id).acyclic(),
{
    let after = scene.with_new_object(name, id);
    assert forall|other: SceneObject| scene.contains(other) implies after.object(other)
        == scene.object(other) by {}
    assert forall|object: SceneObject, k: int|
        after.contains(object) && 0 <= k < after.children_of(object).len() implies {
        &&& after.contains(#[trigger] after.children_of(object)[k])
        &&& after.parent_of(after.children_of(object)[k]) == Some(object)
    } by {
        assert(scene.contains(scene.children_of(object)[k]));
    }
    assert forall|object: SceneObject|
        after.contains(object) && (#[trigger] after.parent_of(object)) is Some implies {
        &&& after.contains(after.parent_of(object)->0)
        &&& after.children_of(after.parent_of(object)->0).contains(object)
    } by {
        assert(scene.parent_of(object) is Some);
    }
    assert forall|object: SceneObject| after.contains(object) implies (#[trigger] after.children_of(
        object,
    )).no_duplicates() by {
        if scene.contains(object) {
            assert(scene.children_of(object).no_duplicates());
        }
    }
    assert forall|object: SceneObject| after.contains(object) implies {
        &&& (#[trigger] after.object(object)).components.attached(object)
        &&& after.object(object).components.kinds_distinct()
    } by {
        if scene.contains(object) {
            assert(scene.object(object).components.attached(object));
        }
    }
    if scene.acyclic() {
        let rank = scene.ranking();
        let longer = rank.push(0);
        assert forall|object: SceneObject|
            after.contains(object) && (#[trigger] after.parent_of(object)) is Some
                && after.contains(after.parent_of(object)->0) implies longer[object.index as int]
            < longer[(after.parent_of(object)->0).index as int] by {
            assert(scene.parent_of(object) is Some);
            assert(scene.contains(scene.parent_of(object)->0));
        }
        assert(after.ranked_by(longer));
    }
}

impl Scene {
    /// A scene of the given name and identity whose root has the given name
    /// and identity. The root is its only object.
    pub fn with_root(name: &str, id: Uuid, root_name: &str, root_id: Uuid) -> (scene: Scene)
        ensures
            scene@.wf(),
            scene@.acyclic(),
            scene@.name == name@,
            scene@.id == id@,
            scene@.root == (SceneObject { index: 0 }),
            scene@.selected is None,
            scene@.objects == seq![fresh_object(root_name@, root_id@, scene@.root)],
    {
        let mut scene = Scene {
            name: String::from_str(name),
            uuid: id,
            root: SceneObject { index: 0 },
            selected: None,
            objects: Vec::new(),
        };
        let ghost before = scene@;
        assert(before.objects =~= Seq::empty());
        let root = SceneObject::place(&mut scene, root_name, root_id);
        proof {
            let after = scene@;
            let rank = seq![0nat];
            assert(after.objects =~= seq![fresh_object(root_name@, root_id@, root)]);
            assert(after.ranked_by(rank));
            assert(after.children_of(root) =~= Seq::empty());
            assert forall|object: SceneObject, k: int|
                after.contains(object) && 0 <= k < after.children_of(object).len() implies {
                &&& after.contains(#[trigger] after.children_of(object)[k])
                &&& after.parent_of(after.children_of(object)[k]) == Some(object)
            } by {}
        }
        scene
    }

    /// A scene named `name` with a newly made root of the same name.
    pub fn new(name: &str) -> (scene: Scene)
        ensures
            scene@.wf(),
            scene@.acyclic(),
            scene@.name == name@,
            is_fresh_uuid_text(scene@.id),
            scene@.root == (SceneObject { index: 0 }),
            scene@.selected is None,
            scene@.objects == seq![
                fresh_object(name@, scene@.object(scene@.root).id, scene@.root),
            ],
            is_fresh_uuid_text(scene@.object(scene@.root).id),
    {
        let id = new_uuid();
        let root_id = new_uuid();
        Scene::with_root(name, id, name, root_id)
    }

    /// The root of the scene.
    pub fn root(&self) -> (root: SceneObject)
        ensures
            root == self@.root,
    {
        self.root
    }

    /// The name of the scene.
    pub fn name(&self) -> (name: String)
        ensures
            name@ == self@.name,
    {
        self.name.clone()
    }

    /// The identity of the scene.
    pub fn id(&self) -> (id: Uuid)
        ensures
            id@ == self@.id,
    {
        self.uuid.clone()
    }

    /// The number of objects in the arena of the scene.
    pub fn object_count(&self) -> (count: usize)
        ensures
            count == self@.objects.len(),
    {
        self.objects.len()
    }

    /// The identity of the selected object, if one is selected.
    pub fn selected(&self) -> (selected: Option<Uuid>)
        ensures
            selected is Some <==> self@.selected is Some,
            selected matches Some(id) ==> Some(id@) == self@.selected,
    {
        match &self.selected {
            Some(id) => Some(id.clone()),
            None => None,
        }
    }

    /// Selects the object of identity `id`, or nothing.
    pub fn select(&mut self, id: Option<Uuid>)
        ensures
            final(self)@ == (SceneView {
                selected: match id {
                    Some(id) => Some(id@),
                    None => None,
                },
                ..old(self)@
            }),
    {
        self.selected = id;
    }
}

impl SceneObject {
    /// Puts a newly made object of the given name and identity into the
    /// arena, whatever state the scene is in.
    fn place(scene: &mut Scene, name: &str, id: Uuid) -> (object: SceneObject)
        ensures
            object == old(scene)@.next_object(),
            object.index == old(scene)@.objects.len(),
            final(scene)@ == old(scene)@.with_new_object(name@, id@),
            old(scene)@.objects.len() < usize::MAX,
            final(scene)@.object(object) == fresh_object(name@, id@, object),
    {
        let object = SceneObject { index: scene.objects.len() };
        let mut components = ComponentContainer::empty();
        components.attach(object);
        scene.objects.push(
            InterSceneObject {
                name: String::from_str(name),
                uuid: id,
                components,
                childs: Vec::new(),
                parent: None,
            },
        );
        proof {
            assert(scene@.objects =~= old(scene)@.objects.push(
                fresh_object(name@, id@, object),
            ));
            assert(scene.objects@.len() == old(scene).objects@.len() + 1);
            assert(scene.objects.len() == scene.objects@.len());
            assert(old(scene)@.objects.len() == old(scene).objects@.len());
        }
        object
    }

    /// Makes an object named `name` with the identity `id` in `scene`. It has
    /// no parent, no children and no components.
    pub fn with_id(scene: &mut Scene, name: &str, id: Uuid) -> (object: SceneObject)
        requires
            old(scene)@.wf(),
        ensures
            object == old(scene)@.next_object(),
            object.index == old(scene)@.objects.len(),
            final(scene)@ == old(scene)@.with_new_object(name@, id@),
            final(scene)@.object(object) == fresh_object(name@, id@, object),
            final(scene)@.wf(),
            old(scene)@.acyclic() ==> final(scene)@.acyclic(),
    {
        let object = SceneObject::place(scene, name, id);
        proof {
            lemma_new_object(old(scene)@, name@, id@);
        }
        object
    }

    /// Makes an object named `name` with a fresh identity in `scene`. It has
    /// no parent, no children and no components.
    pub fn new(scene: &mut Scene, name: &str) -> (object: SceneObject)
        requires
            old(scene)@.wf(),
        ensures
            object == old(scene)@.next_object(),
            object.index == old(scene)@.objects.len(),
            is_fresh_uuid_text(final(scene)@.object(object).id),
            final(scene)@ == old(scene)@.with_new_object(name@, final(scene)@.object(object).id),
            final(scene)@.wf(),
            old(scene)@.acyclic() ==> final(scene)@.acyclic(),
    {
        let id = new_uuid();
        let object = SceneObject::with_id(scene, name, id);
        object
    }
}

impl SceneObject {
    /// The parent of the object, if it has one.
    pub fn parent(&self, scene: &Scene) -> (parent: Option<SceneObject>)
        requires
            scene@.contains(*self),
        ensures
            parent == scene@.parent_of(*self),
    {
        scene.objects[self.index].parent
    }

    /// Whether the object has a parent.
    pub fn has_parent(&self, scene: &Scene) -> (has: bool)
        requires
            scene@.contains(*self),
        ensures
            has == scene@.parent_of(*self) is Some,
    {
        scene.objects[self.index].parent.is_some()
    }

    /// The identity of the object.
    pub fn id(&self, scene: &Scene) -> (id: Uuid)
        requires
            scene@.contains(*self),
        ensures
            id@ == scene@.object(*self).id,
    {
        scene.objects[self.index].uuid.clone()
    }

    /// The name of the object.
    pub fn name(&self, scene: &Scene) -> (name: String)
        requires
            scene@.contains(*self),
        ensures
            name@ == scene@.object(*self).name,
    {
        scene.objects[self.index].name.clone()
    }

    /// Renames the object.
    pub fn set_name(&self, scene: &mut Scene, name: &str)
        requires
            old(scene)@.wf(),
            old(scene)@.contains(*self),
        ensures
            final(scene)@ == old(scene)@.set_name(*self, name@),
            final(scene)@.wf(),
            old(scene)@.acyclic() ==> final(scene)@.acyclic(),
    {
        scene.objects[self.index].name = String::from_str(name);
        proof {
            assert(scene@.objects =~= old(scene)@.set_name(*self, name@).objects);
            assert forall|object: SceneObject| scene@.contains(object) implies {
                &&& (#[trigger] scene@.object(object)).components.attached(object)
                &&& scene@.object(object).components.kinds_distinct()
            } by {
                assert(old(scene)@.object(object).components.attached(object));
            }
            lemma_same_links(old(scene)@, scene@);
        }
    }

    /// The children of the object, in their order: a copy of the list, which
    /// can be changed without changing the scene.
    pub fn children(&self, scene: &Scene) -> (children: Vec<SceneObject>)
        requires
            scene@.contains(*self),
        ensures
            children@ == scene@.children_of(*self),
    {
        scene.objects[self.index].childs.clone()
    }

    /// The number of children of the object.
    pub fn child_count(&self, scene: &Scene) -> (count: usize)
        requires
            scene@.contains(*self),
        ensures
            count == scene@.children_of(*self).len(),
    {
        scene.objects[self.index].childs.len()
    }

    /// The local transform of the object.
    pub fn get_transform(&self, scene: &Scene) -> (transform: Transform)
        requires
            scene@.contains(*self),
        ensures
            transform == scene@.object(*self).components.transform,
    {
        scene.objects[self.index].components.transform()
    }

    /// Replaces the local transform of the object.
    pub fn set_transform(&self, scene: &mut Scene, transform: Transform)
        requires
            old(scene)@.wf(),
            old(scene)@.contains(*self),
        ensures
            final(scene)@ == old(scene)@.set_transform(*self, transform),
            final(scene)@.wf(),
            old(scene)@.acyclic() ==> final(scene)@.acyclic(),
    {
        scene.objects[self.index].components.set_transform(transform);
        proof {
            assert(scene@.objects =~= old(scene)@.set_transform(*self, transform).objects);
            assert forall|object: SceneObject| scene@.contains(object) implies {
                &&& (#[trigger] scene@.object(object)).components.attached(object)
                &&& scene@.object(object).components.kinds_distinct()
            } by {
                assert(old(scene)@.object(object).components.attached(object));
            }
            lemma_same_links(old(scene)@, scene@);
        }
    }

    /// Takes `child` out of the children of the object. Where it stood among
    /// them it has no parent afterwards; otherwise nothing changes.
    pub fn remove_child(&self, scene: &mut Scene, child: SceneObject)
        requires
            old(scene)@.wf(),
            old(scene)@.contains(*self),
        ensures
            final(scene)@ == old(scene)@.remove_child(*self, child),
            final(scene)@.wf(),
            old(scene)@.acyclic() ==> final(scene)@.acyclic(),
    {
        let ghost list = old(scene)@.children_of(*self);
        let count = scene.objects[self.index].childs.len();
        let mut i: usize = 0;
        while i < count
            invariant
                i <= count,
                scene == old(scene),
                old(scene)@.wf(),
                scene@.contains(*self),
                count == list.len(),
                list == scene@.children_of(*self),
                forall|j: int| 0 <= j < i ==> list[j] != child,
            decreases count - i,
        {
            if scene.objects[self.index].childs[i] == child {
                proof {
                    list.index_of_first_ensures(child);
                    assert(list[i as int] == child);
                    assert(list.contains(child));
                    assert(list.index_of_first(child) == Some(i as int));
                    assert(old(scene)@.children_of(*self)[i as int] == child);
                    assert(old(scene)@.contains(child));
                    lemma_remove_child_wf(old(scene)@, *self, child);
                    if old(scene)@.acyclic() {
                        lemma_remove_child_acyclic(old(scene)@, *self, child);
                    }
                }
                scene.objects[self.index].childs.remove(i);
                scene.objects[child.index].parent = None;
                proof {
                    assert(scene@.objects =~= old(scene)@.remove_child(*self, child).objects);
                }
                return ;
            }
            i = i + 1;
        }
        proof {
            assert(!list.contains(child));
        }
    }

    /// Makes `child` the last child of the object. A child that had a parent
    /// leaves the children of that parent first; a child of the object itself
    /// moves to the end. The scene stays acyclic unless `child` is the object
    /// or stands above it.
    pub fn add_child(&self, scene: &mut Scene, child: SceneObject)
        requires
            old(scene)@.wf(),
            old(scene)@.contains(*self),
            old(scene)@.contains(child),
        ensures
            final(scene)@ == old(scene)@.add_child(*self, child),
            final(scene)@.wf(),
            old(scene)@.acyclic() && !old(scene)@.is_above(child, *self)
                ==> final(scene)@.acyclic(),
    {
        proof {
            lemma_add_child_wf(old(scene)@, *self, child);
            if old(scene)@.acyclic() && !old(scene)@.is_above(child, *self) {
                lemma_add_child_acyclic(old(scene)@, *self, child);
            }
        }
        match scene.objects[child.index].parent {
            Some(former) => {
                assert(old(scene)@.parent_of(child) is Some);
                former.remove_child(scene, child);
            },
            None => {},
        }
        let ghost detached = scene@;
        scene.objects[child.index].parent = Some(*self);
        let ghost linked = scene@;
        proof {
            assert(linked.objects =~= detached.set_parent(child, Some(*self)).objects);
        }
        scene.objects[self.index].childs.push(child);
        proof {
            assert(scene@.objects =~= linked.set_children(
                *self,
                linked.children_of(*self).push(child),
            ).objects);
        }
    }

    /// Whether the object is `other` itself or one of its ancestors.
    pub fn stands_above(&self, scene: &Scene, other: SceneObject) -> (above: bool)
        requires
            scene@.wf(),
            scene@.acyclic(),
            scene@.contains(*self),
            scene@.contains(other),
        ensures
            above == scene@.is_above(*self, other),
    {
        let mut current = other;
        let ghost mut steps: nat = 0;
        let ghost rank = scene@.ranking();
        loop
            invariant
                scene@.wf(),
                scene@.acyclic(),
                rank == scene@.ranking(),
                scene@.contains(current),
                scene@.contains(other),
                scene@.nth_ancestor(other, steps) == Some(current),
                forall|k: nat| k < steps ==> scene@.nth_ancestor(other, k) != Some(*self),
            decreases rank_bound(rank) - rank[current.index as int],
        {
            if current == *self {
                return true;
            }
            match scene.objects[current.index].parent {
                None => {
                    proof {
                        assert(scene@.parent_of(current) is None);
                        assert forall|k: nat| scene@.nth_ancestor(other, k) != Some(*self) by {
                            if k > steps {
                                lemma_chain_ends(scene@, other, steps, k);
                            }
                        }
                    }
                    return false;
                },
                Some(parent) => {
                    proof {
                        assert(scene@.parent_of(current) == Some(parent));
                        assert(scene@.contains(parent));
                        assert(scene@.nth_ancestor(other, steps + 1) == Some(parent));
                        lemma_rank_bound(rank, parent.index as int);
                        steps = steps + 1;
                    }
                    current = parent;
                },
            }
        }
    }

    /// Adds `component` to the object, attached to it. A component of the
    /// same kind that the object had gives way to it.
    pub fn add_component<T: ComponentPacker>(&self, scene: &mut Scene, component: T)
        requires
            old(scene)@.wf(),
            old(scene)@.contains(*self),
        ensures
            final(scene)@ == old(scene)@.add_component(*self, component.packed()),
            final(scene)@.wf(),
            old(scene)@.acyclic() ==> final(scene)@.acyclic(),
    {
        proof {
            assert(old(scene)@.object(*self).components.attached(*self));
        }
        scene.objects[self.index].components.add_component(component);
        proof {
            let packed = component.packed();
            let before = old(scene)@.object(*self).components;
            assert(scene@.objects =~= old(scene)@.add_component(*self, packed).objects);
            lemma_attached_keeps_ident(packed, *self);
            assert forall|object: SceneObject| scene@.contains(object) implies {
                &&& (#[trigger] scene@.object(object)).components.attached(object)
                &&& scene@.object(object).components.kinds_distinct()
            } by {
                assert(old(scene)@.object(object).components.attached(object));
                if object == *self {
                    let after = before.with_component(packed, *self);
                    assert forall|i: int| 0 <= i < after.components.len() implies (
                    #[trigger] after.components[i]).owner() == Some(object) by {
                        if i < before.components.len() && before.position(packed.ident()) != Some(
                            i,
                        ) {
                            assert(before.components[i].owner() == Some(object));
                        }
                    }
                }
            }
            lemma_same_links(old(scene)@, scene@);
        }
    }

    /// A handle to the component of kind `identifier`, if the object has one.
    pub fn get_component(&self, scene: &Scene, identifier: ComponentIdentifier) -> (found: Option<
        ComponentHandle,
    >)
        requires
            scene@.wf(),
            scene@.contains(*self),
        ensures
            match found {
                Some(handle) => {
                    &&& handle.owner == *self
                    &&& scene@.object(*self).components.position(identifier@) == Some(
                        handle.slot as int,
                    )
                    &&& handle.slot < scene@.object(*self).components.components.len()
                },
                None => scene@.object(*self).components.position(identifier@) is None,
            },
    {
        proof {
            assert(scene@.object(*self).components.kinds_distinct());
        }
        match scene.objects[self.index].components.component_slot(identifier) {
            Some(slot) => Some(ComponentHandle { owner: *self, slot }),
            None => None,
        }
    }
}

impl SceneView {
    /// Whether `handle` names a component of an object of this scene.
    pub open spec fn holds_component(self, handle: ComponentHandle) -> bool {
        &&& self.contains(handle.owner)
        &&& handle.slot < self.object(handle.owner).components.components.len()
    }
}

impl ComponentHandle {
    /// Borrows the component that the handle names.
    pub fn get<'a>(&self, scene: &'a Scene) -> (component: &'a Component)
        requires
            scene@.holds_component(*self),
        ensures
            component@ == scene@.object(self.owner).components.components[self.slot as int],
    {
        scene.objects[self.owner.index].components.component_at(self.slot)
    }
}

impl Scene {
    /// Searches the objects at and below `object`, in the order of
    /// [`SceneView::preorder`], for the first one of identity `id`.
    fn find_below(&self, object: SceneObject, id: &Uuid) -> (found: Option<SceneObject>)
        requires
            self@.visitable(object),
        ensures
            found == self@.first_with_id(self@.preorder(object), id@),
        decreases self@.rank_of(object),
    {
        let ghost below = self@.preorder_of_children(object, 0);
        proof {
            self@.lemma_first_with_id_of_concat(seq![object], below, id@);
            assert(seq![object].drop_first() =~= Seq::<SceneObject>::empty());
        }
        if str_eq(self.objects[object.index].uuid.as_str(), id.as_str()) {
            return Some(object);
        }
        proof {
            assert(self@.object(object).id != id@);
            assert(self@.first_with_id(Seq::<SceneObject>::empty(), id@) is None);
            assert(seq![object].drop_first() =~= Seq::<SceneObject>::empty());
            assert(self@.first_with_id(seq![object], id@) is None);
            assert(self@.preorder(object) == seq![object] + below);
        }
        let count = self.objects[object.index].childs.len();
        let mut k: usize = 0;
        while k < count
            invariant
                k <= count,
                count == self@.children_of(object).len(),
                self@.visitable(object),
                self@.first_with_id(self@.preorder_of_children(object, k as int), id@)
                    == self@.first_with_id(self@.preorder(object), id@),
            decreases count - k,
        {
            let child = self.objects[object.index].childs[k];
            proof {
                self@.lemma_child_ranks_below(object, k as int);
                self@.lemma_first_with_id_of_concat(
                    self@.preorder(child),
                    self@.preorder_of_children(object, k + 1),
                    id@,
                );
            }
            let found = self.find_below(child, id);
            if found.is_some() {
                return found;
            }
            k = k + 1;
        }
        None
    }

    /// The first object of identity `id` that a walk from the root meets,
    /// each object before the objects below it and children in their order;
    /// nothing when no object below the root has that identity.
    pub fn find(&self, id: &Uuid) -> (found: Option<SceneObject>)
        requires
            self@.wf(),
            self@.acyclic(),
        ensures
            found == self@.first_with_id(self@.preorder(self@.root), id@),
    {
        self.find_below(self.root, id)
    }

    /// The objects that a walk from `object` meets, in the order in which
    /// it meets them.
    pub fn visit_order(&self, object: SceneObject) -> (order: Vec<SceneObject>)
        requires
            self@.visitable(object),
        ensures
            order@ == self@.preorder(object),
        decreases self@.rank_of(object),
    {
        let mut order: Vec<SceneObject> = Vec::new();
        order.push(object);
        let count = self.objects[object.index].childs.len();
        let mut k: usize = 0;
        while k < count
            invariant
                k <= count,
                count == self@.children_of(object).len(),
                self@.visitable(object),
                order@ + self@.preorder_of_children(object, k as int) == self@.preorder(object),
            decreases count - k,
        {
            let child = self.objects[object.index].childs[k];
            proof {
                self@.lemma_child_ranks_below(object, k as int);
            }
            let mut below = self.visit_order(child);
            let ghost before = order@;
            order.append(&mut below);
            proof {
                assert((before + self@.preorder(child)) + self@.preorder_of_children(
                    object,
                    k + 1,
                ) =~= before + self@.preorder_of_children(object, k as int));
            }
            k = k + 1;
        }
        proof {
            assert(order@ + Seq::<SceneObject>::empty() =~= order@);
        }
        order
    }
}

} // verus!
