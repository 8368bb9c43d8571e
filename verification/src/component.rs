//! Components: the behaviours that can be attached to a scene object, and
//! the container that keeps at most one of each kind for an object.

use crate::mesh_filter::{MeshFilter, MeshFilterView};
use crate::scene::SceneObject;
use crate::text::str_eq;
use crate::transform::Transform;
use vstd::prelude::*;

verus! {

/// The name of a kind of component.
pub type ComponentIdentifier = &'static str;

/// A component of one of the known kinds.
pub enum Component {
    MeshFilter(MeshFilter),
}

/// A [`Component`] as a mathematical value.
pub enum ComponentView {
    MeshFilter(MeshFilterView),
}

impl View for Component {
    type V = ComponentView;

    open spec fn view(&self) -> ComponentView {
        match self {
            Component::MeshFilter(filter) => ComponentView::MeshFilter(filter@),
        }
    }
}

impl ComponentView {
    /// The kind identifier of the component.
    pub open spec fn ident(self) -> Seq<char> {
        match self {
            ComponentView::MeshFilter(_) => MeshFilter::IDENT@,
        }
    }

    /// The object that owns the component, once it is attached.
    pub open spec fn owner(self) -> Option<SceneObject> {
        match self {
            ComponentView::MeshFilter(filter) => filter.owner,
        }
    }

    /// The component with `object` as its owner.
    pub open spec fn attached_to(self, object: SceneObject) -> ComponentView {
        match self {
            ComponentView::MeshFilter(filter) => ComponentView::MeshFilter(
                MeshFilterView { owner: Some(object), ..filter },
            ),
        }
    }
}

/// What can be made into a component.
pub trait ComponentPacker: Sized {
    /// The component that `pack` makes of the value.
    spec fn packed(&self) -> ComponentView;

    /// Wraps the value as a component.
    fn pack(self) -> (component: Component)
        ensures
            component@ == self.packed(),
    ;
}

impl ComponentPacker for Component {
    open spec fn packed(&self) -> ComponentView {
        self@
    }

    fn pack(self) -> (component: Component) {
        self
    }
}

impl Component {
    /// The kind identifier of the component.
    pub fn ident(&self) -> (ident: ComponentIdentifier)
        ensures
            ident@ == self@.ident(),
    {
        match self {
            Component::MeshFilter(_) => MeshFilter::IDENT,
        }
    }

    /// Makes `object` the owner of the component.
    pub fn attach(&mut self, object: SceneObject)
        ensures
            final(self)@ == old(self)@.attached_to(object),
    {
        match self {
            Component::MeshFilter(filter) => filter.attach(object),
        }
    }
}

impl Clone for Component {
    fn clone(&self) -> (copy: Component)
        ensures
            copy@ == self@,
    {
        match self {
            Component::MeshFilter(filter) => Component::MeshFilter(filter.clone()),
        }
    }
}

/// A handle to a component of an object: the owner and the place of the
/// component in the container of the owner.
#[derive(Clone, Copy, Debug, PartialEq, Eq, Structural)]
pub struct ComponentHandle {
    pub owner: SceneObject,
    pub slot: usize,
}

/// A [`ComponentContainer`] as a mathematical value.
pub struct ContainerView {
    pub transform: Transform,
    pub components: Seq<ComponentView>,
    pub owner: Option<SceneObject>,
}

impl ContainerView {
    /// The place of the component of kind `ident`, if there is one.
    pub open spec fn position(self, ident: Seq<char>) -> Option<int> {
        if exists|i: int| 0 <= i < self.components.len() && self.components[i].ident() == ident {
            Some(
                choose|i: int| 0 <= i < self.components.len() && self.components[i].ident() == ident,
            )
        } else {
            None
        }
    }

    /// The component of kind `ident`, if there is one.
    pub open spec fn find(self, ident: Seq<char>) -> Option<ComponentView> {
        match self.position(ident) {
            Some(i) => Some(self.components[i]),
            None => None,
        }
    }

    /// Whether the container holds one component of kind `ident` and no
    /// second one.
    pub open spec fn has_exactly_one(self, ident: Seq<char>) -> bool {
        exists|i: int|
            {
                &&& 0 <= i < self.components.len()
                &&& (#[trigger] self.components[i]).ident() == ident
                &&& forall|j: int|
                    0 <= j < self.components.len() && (#[trigger] self.components[j]).ident()
                        == ident ==> j == i
            }
    }

    /// No two components are of the same kind.
    pub open spec fn kinds_distinct(self) -> bool {
        forall|i: int, j: int|
            0 <= i < j < self.components.len() ==> (#[trigger] self.components[i]).ident() != (
            #[trigger] self.components[j]).ident()
    }

    /// The container belongs to `object`, and so does every component in it.
    pub open spec fn attached(self, object: SceneObject) -> bool {
        &&& self.owner == Some(object)
        &&& forall|i: int|
            0 <= i < self.components.len() ==> (#[trigger] self.components[i]).owner() == Some(
                object,
            )
    }

    /// The container after `component` was added by an owner `object`: the
    /// component, attached to `object`, takes the place of the one of its kind,
    /// or comes last when there was none.
    pub open spec fn with_component(self, component: ComponentView, object: SceneObject) -> ContainerView {
        let attached = component.attached_to(object);
        match self.position(component.ident()) {
            Some(i) => ContainerView { components: self.components.update(i, attached), ..self },
            None => ContainerView { components: self.components.push(attached), ..self },
        }
    }
}

/// The transform of an object and its components, at most one of each kind.
pub struct ComponentContainer {
    pub(crate) transform: Transform,
    components: Vec<Component>,
    object: Option<SceneObject>,
}

impl View for ComponentContainer {
    type V = ContainerView;

    closed spec fn view(&self) -> ContainerView {
        ContainerView {
            transform: self.transform,
            components: self.components@.map(|i: int, c: Component| c@),
            owner: self.object,
        }
    }
}

impl ComponentContainer {
    /// A container with the identity transform and no components, attached
    /// to no object.
    pub fn empty() -> (container: ComponentContainer)
        ensures
            container@ == (ContainerView {
                transform: Transform::identity(),
                components: Seq::empty(),
                owner: None,
            }),
    {
        let container = ComponentContainer {
            transform: Transform::default(),
            components: Vec::new(),
            object: None,
        };
        assert(container@.components =~= Seq::empty());
        container
    }

    /// Makes `object` the owner of the container.
    pub fn attach(&mut self, object: SceneObject)
        ensures
            final(self)@ == (ContainerView { owner: Some(object), ..old(self)@ }),
    {
        self.object = Some(object);
    }

    /// The transform of the owner.
    pub fn transform(&self) -> (transform: Transform)
        ensures
            transform == self@.transform,
    {
        self.transform
    }

    /// Replaces the transform of the owner.
    pub fn set_transform(&mut self, transform: Transform)
        ensures
            final(self)@ == (ContainerView { transform, ..old(self)@ }),
    {
        self.transform = transform;
    }

    /// The place of the component of kind `identifier`, if there is one.
    fn slot_of(&self, identifier: &str) -> (found: Option<usize>)
        requires
            self@.kinds_distinct(),
        ensures
            match found {
                Some(slot) => self@.position(identifier@) == Some(slot as int) && slot
                    < self@.components.len() && self@.components[slot as int].ident()
                    == identifier@,
                None => self@.position(identifier@) is None,
            },
    {
        let mut i: usize = 0;
        while i < self.components.len()
            invariant
                i <= self.components.len(),
                self@.kinds_distinct(),
                forall|j: int| 0 <= j < i ==> self@.components[j].ident() != identifier@,
            decreases self.components.len() - i,
        {
            if str_eq(self.components[i].ident(), identifier) {
                proof {
                    lemma_position_is_unique(self@, identifier@, i as int);
                }
                return Some(i);
            }
            i = i + 1;
        }
        None
    }

    /// Adds `component` after attaching it to the owner of the container. A
    /// component of the same kind that the container held gives way to it.
    pub fn add_component<T: ComponentPacker>(&mut self, component: T)
        requires
            old(self)@.owner is Some,
            old(self)@.kinds_distinct(),
        ensures
            final(self)@ == old(self)@.with_component(component.packed(), old(self)@.owner->0),
            final(self)@.kinds_distinct(),
    {
        let mut packed = component.pack();
        let owner = self.object.unwrap();
        let found = self.slot_of(packed.ident());
        packed.attach(owner);
        proof {
            lemma_with_component_keeps_kinds_distinct(self@, component.packed(), owner);
        }
        match found {
            Some(slot) => {
                self.components[slot] = packed;
                assert(self@.components =~= old(self)@.components.update(slot as int, packed@));
            },
            None => {
                self.components.push(packed);
                assert(self@.components =~= old(self)@.components.push(packed@));
            },
        }
    }

    /// The component of kind `identifier`, if the container holds one.
    pub fn get_component(&self, identifier: ComponentIdentifier) -> (found: Option<&Component>)
        requires
            self@.kinds_distinct(),
        ensures
            found is Some <==> self@.find(identifier@) is Some,
            found matches Some(component) ==> Some(component@) == self@.find(identifier@),
    {
        match self.slot_of(identifier) {
            Some(slot) => Some(&self.components[slot]),
            None => None,
        }
    }

    /// The place of the component of kind `identifier`, if the container
    /// holds one.
    pub(crate) fn component_slot(&self, identifier: ComponentIdentifier) -> (found: Option<usize>)
        requires
            self@.kinds_distinct(),
        ensures
            match found {
                Some(slot) => self@.position(identifier@) == Some(slot as int) && slot
                    < self@.components.len(),
                None => self@.position(identifier@) is None,
            },
    {
        self.slot_of(identifier)
    }

    /// The component at `slot`.
    pub(crate) fn component_at(&self, slot: usize) -> (component: &Component)
        requires
            slot < self@.components.len(),
        ensures
            component@ == self@.components[slot as int],
    {
        &self.components[slot]
    }

    /// The number of components.
    pub fn component_count(&self) -> (count: usize)
        ensures
            count == self@.components.len(),
    {
        self.components.len()
    }
}

/// In a container of distinct kinds, the place of a kind is the one place
/// where a component of that kind stands.
pub proof fn lemma_position_is_unique(container: ContainerView, ident: Seq<char>, i: int)
    requires
        container.kinds_distinct(),
        0 <= i < container.components.len(),
        container.components[i].ident() == ident,
    ensures
        container.position(ident) == Some(i),
{
    let chosen = choose|k: int|
        0 <= k < container.components.len() && container.components[k].ident() == ident;
    assert(0 <= chosen < container.components.len() && container.components[chosen].ident()
        == ident);
    if chosen < i {
        assert(container.components[chosen].ident() != container.components[i].ident());
    } else if chosen > i {
        assert(container.components[i].ident() != container.components[chosen].ident());
    }
}

/// Attaching a component does not change its kind.
pub proof fn lemma_attached_keeps_ident(component: ComponentView, object: SceneObject)
    ensures
        component.attached_to(object).ident() == component.ident(),
        component.attached_to(object).owner() == Some(object),
{
}

/// Adding a component keeps the kinds of a container distinct.
pub proof fn lemma_with_component_keeps_kinds_distinct(
    container: ContainerView,
    component: ComponentView,
    object: SceneObject,
)
    requires
        container.kinds_distinct(),
    ensures
        container.with_component(component, object).kinds_distinct(),
{
    let after = container.with_component(component, object);
    let attached = component.attached_to(object);
    match container.position(component.ident()) {
        Some(i) => {
            assert forall|a: int, b: int| 0 <= a < b < after.components.len() implies (
            #[trigger] after.components[a]).ident() != (#[trigger] after.components[b]).ident() by {
                assert(container.components[a].ident() != container.components[b].ident());
            }
        },
        None => {
            assert forall|a: int, b: int| 0 <= a < b < after.components.len() implies (
            #[trigger] after.components[a]).ident() != (#[trigger] after.components[b]).ident() by {
                if b < container.components.len() {
                    assert(container.components[a].ident() != container.components[b].ident());
                } else {
                    assert(container.components[a].ident() != component.ident());
                }
            }
        },
    }
}

/// After a component was added, the container holds exactly one component
/// of its kind, and it is the added one, attached to the owner.
pub proof fn lemma_added_component_is_the_one(
    container: ContainerView,
    component: ComponentView,
    object: SceneObject,
)
    requires
        container.kinds_distinct(),
    ensures
        container.with_component(component, object).has_exactly_one(component.ident()),
        container.with_component(component, object).find(component.ident()) == Some(
            component.attached_to(object),
        ),
{
    let after = container.with_component(component, object);
    let attached = component.attached_to(object);
    lemma_with_component_keeps_kinds_distinct(container, component, object);
    let place = match container.position(component.ident()) {
        Some(i) => i,
        None => container.components.len() as int,
    };
    assert(after.components[place] == attached);
    lemma_position_is_unique(after, component.ident(), place);
    assert forall|j: int|
        0 <= j < after.components.len() && (#[trigger] after.components[j]).ident()
            == component.ident() implies j == place by {
        lemma_position_is_unique(after, component.ident(), j);
    }
}

/// Of two components of one kind added one after the other, the container
/// keeps the second: it holds exactly one component of that kind, and that
/// is the second.
pub proof fn lemma_second_component_replaces_first(
    container: ContainerView,
    first: ComponentView,
    second: ComponentView,
    object: SceneObject,
)
    requires
        container.kinds_distinct(),
        first.ident() == second.ident(),
    ensures
        container.with_component(first, object).with_component(second, object).has_exactly_one(
            second.ident(),
        ),
        container.with_component(first, object).with_component(second, object).find(
            second.ident(),
        ) == Some(second.attached_to(object)),
        container.with_component(first, object).with_component(second, object).components.len()
            == container.with_component(first, object).components.len(),
{
    let once = container.with_component(first, object);
    lemma_with_component_keeps_kinds_distinct(container, first, object);
    lemma_added_component_is_the_one(container, first, object);
    lemma_added_component_is_the_one(once, second, object);
}

} // verus!
