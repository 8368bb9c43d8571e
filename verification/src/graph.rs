//! The scene graph as a mathematical value: what each object holds, what it
//! means for the parent and child links to agree, and what adding and
//! removing a child do.

use crate::component::{ComponentView, ContainerView};
use crate::scene::SceneObject;
use crate::transform::Transform;
use vstd::prelude::*;

verus! {

/// What one object of a scene holds.
pub struct ObjectView {
    pub name: Seq<char>,
    pub id: Seq<char>,
    pub components: ContainerView,
    pub children: Seq<SceneObject>,
    pub parent: Option<SceneObject>,
}

/// A scene: its own name and identity, its root, the identity of the
/// selected object, and the objects of its arena by their index.
pub struct SceneView {
    pub name: Seq<char>,
    pub id: Seq<char>,
    pub root: SceneObject,
    pub selected: Option<Seq<char>>,
    pub objects: Seq<ObjectView>,
}

/// `list` without the first occurrence of `object`.
pub open spec fn without(list: Seq<SceneObject>, object: SceneObject) -> Seq<SceneObject> {
    list.remove_value(object)
}

impl SceneView {
    /// Whether `object` names an object of this scene.
    pub open spec fn contains(self, object: SceneObject) -> bool {
        object.index < self.objects.len()
    }

    /// What `object` holds.
    pub open spec fn object(self, object: SceneObject) -> ObjectView {
        self.objects[object.index as int]
    }

    pub open spec fn parent_of(self, object: SceneObject) -> Option<SceneObject> {
        self.object(object).parent
    }

    pub open spec fn children_of(self, object: SceneObject) -> Seq<SceneObject> {
        self.object(object).children
    }

    /// The scene with `state` in the place of `object`.
    pub open spec fn with_object(self, object: SceneObject, state: ObjectView) -> SceneView {
        SceneView { objects: self.objects.update(object.index as int, state), ..self }
    }

    /// The scene with the parent link of `object` replaced.
    pub open spec fn set_parent(self, object: SceneObject, parent: Option<SceneObject>) -> SceneView {
        self.with_object(object, ObjectView { parent, ..self.object(object) })
    }

    /// The scene with the child list of `object` replaced.
    pub open spec fn set_children(self, object: SceneObject, children: Seq<SceneObject>) -> SceneView {
        self.with_object(object, ObjectView { children, ..self.object(object) })
    }

    /// Every listed child is an object of the scene whose parent link points
    /// back at the object that lists it.
    pub open spec fn children_point_back(self) -> bool {
        forall|object: SceneObject, k: int|
            self.contains(object) && 0 <= k < self.children_of(object).len() ==> {
                &&& self.contains(#[trigger] self.children_of(object)[k])
                &&& self.parent_of(self.children_of(object)[k]) == Some(object)
            }
    }

    /// Every parent link points at an object of the scene that lists the
    /// object among its children.
    pub open spec fn parents_list_children(self) -> bool {
        forall|object: SceneObject|
            self.contains(object) && (#[trigger] self.parent_of(object)) is Some ==> {
                &&& self.contains(self.parent_of(object)->0)
                &&& self.children_of(self.parent_of(object)->0).contains(object)
            }
    }

    /// No object is listed twice by the same parent.
    pub open spec fn children_listed_once(self) -> bool {
        forall|object: SceneObject|
            self.contains(object) ==> (#[trigger] self.children_of(object)).no_duplicates()
    }

    /// The parent and child links agree: an object stands in the child list
    /// of another exactly when its parent link points there, and it stands
    /// there once.
    pub open spec fn links_wf(self) -> bool {
        &&& self.children_point_back()
        &&& self.parents_list_children()
        &&& self.children_listed_once()
    }

    /// Every container belongs to its object, with components of distinct
    /// kinds that belong to the object too.
    pub open spec fn components_wf(self) -> bool {
        forall|object: SceneObject|
            self.contains(object) ==> {
                &&& (#[trigger] self.object(object)).components.attached(object)
                &&& self.object(object).components.kinds_distinct()
            }
    }

    /// The scene is well formed: its root is one of its objects, the links
    /// agree, and the containers belong to their objects.
    pub open spec fn wf(self) -> bool {
        &&& self.contains(self.root)
        &&& self.links_wf()
        &&& self.components_wf()
    }

    /// The scene after `child` was taken out of the child list of `object`:
    /// where it stood there, it is removed and has no parent any more;
    /// otherwise nothing changes.
    pub open spec fn remove_child(self, object: SceneObject, child: SceneObject) -> SceneView {
        if self.children_of(object).contains(child) {
            self.set_children(object, without(self.children_of(object), child)).set_parent(
                child,
                None,
            )
        } else {
            self
        }
    }

    /// The scene after `child` was added to `object`: it leaves the child
    /// list of its former parent, if it had one, gets `object` as its
    /// parent and comes last in the child list of `object`.
    pub open spec fn add_child(self, object: SceneObject, child: SceneObject) -> SceneView {
        let detached = match self.parent_of(child) {
            Some(former) => self.remove_child(former, child),
            None => self,
        };
        let linked = detached.set_parent(child, Some(object));
        linked.set_children(object, linked.children_of(object).push(child))
    }
}

/// Removing the first occurrence of a value from a list without duplicates
/// leaves exactly the other values, in their order.
pub proof fn lemma_without(list: Seq<SceneObject>, object: SceneObject)
    requires
        list.no_duplicates(),
        list.contains(object),
    ensures
        without(list, object).len() == list.len() - 1,
        without(list, object).no_duplicates(),
        !without(list, object).contains(object),
        forall|other: SceneObject|
            other != object ==> (#[trigger] without(list, object).contains(other)
                <==> list.contains(other)),
        without(list, object) == list.remove(list.index_of(object)),
{
    list.index_of_first_ensures(object);
    let i = list.index_of_first(object)->0;
    let rest = list.remove(i);
    assert(list.index_of(object) == i);
    assert(rest =~= without(list, object));
    assert forall|a: int, b: int| 0 <= a < rest.len() && 0 <= b < rest.len() && a != b implies rest[a]
        != rest[b] by {
        let a0 = if a < i { a } else { a + 1 };
        let b0 = if b < i { b } else { b + 1 };
        assert(rest[a] == list[a0] && rest[b] == list[b0]);
    }
    assert forall|k: int| 0 <= k < rest.len() implies rest[k] != object by {
        let k0 = if k < i { k } else { k + 1 };
        assert(rest[k] == list[k0]);
    }
    assert forall|other: SceneObject| other != object implies (#[trigger] rest.contains(other)
        <==> list.contains(other)) by {
        if rest.contains(other) {
            let k = choose|k: int| 0 <= k < rest.len() && rest[k] == other;
            let k0 = if k < i { k } else { k + 1 };
            assert(list[k0] == other);
        }
        if list.contains(other) {
            let k0 = choose|k: int| 0 <= k < list.len() && list[k] == other;
            let k = if k0 < i { k0 } else { k0 - 1 };
            assert(rest[k] == other);
        }
    }
}

/// What removing a child changes: the child list of the object and the
/// parent link of the child, and nothing else.
pub proof fn lemma_remove_child_effect(scene: SceneView, object: SceneObject, child: SceneObject)
    requires
        scene.contains(object),
        scene.contains(child),
        scene.children_of(object).contains(child),
    ensures
        scene.remove_child(object, child).objects.len() == scene.objects.len(),
        scene.remove_child(object, child).root == scene.root,
        forall|other: SceneObject|
            scene.contains(other) ==> {
                &&& (#[trigger] scene.remove_child(object, child).children_of(other)) == if other
                    == object {
                    without(scene.children_of(object), child)
                } else {
                    scene.children_of(other)
                }
                &&& (#[trigger] scene.remove_child(object, child).parent_of(other)) == if other
                    == child {
                    None
                } else {
                    scene.parent_of(other)
                }
                &&& scene.remove_child(object, child).object(other).components == scene.object(
                    other,
                ).components
                &&& scene.remove_child(object, child).object(other).name == scene.object(other).name
                &&& scene.remove_child(object, child).object(other).id == scene.object(other).id
            },
{
}

/// Removing a child keeps the links in agreement.
pub proof fn lemma_remove_child_wf(scene: SceneView, object: SceneObject, child: SceneObject)
    requires
        scene.wf(),
        scene.contains(object),
        scene.contains(child),
    ensures
        scene.remove_child(object, child).wf(),
{
    let after = scene.remove_child(object, child);
    if scene.children_of(object).contains(child) {
        let list = scene.children_of(object);
        lemma_without(list, child);
        lemma_remove_child_effect(scene, object, child);
        let i = list.index_of(child);
        assert(scene.children_of(object)[i] == child);
        assert(scene.parent_of(child) == Some(object));
        assert forall|other: SceneObject, k: int|
            after.contains(other) && 0 <= k < after.children_of(other).len() implies {
            &&& after.contains(#[trigger] after.children_of(other)[k])
            &&& after.parent_of(after.children_of(other)[k]) == Some(other)
        } by {
            let listed = after.children_of(other)[k];
            if other == object {
                assert(without(list, child).contains(listed));
                assert(list.contains(listed));
                let k0 = list.index_of(listed);
                assert(scene.children_of(object)[k0] == listed);
            } else {
                assert(scene.children_of(other)[k] == listed);
            }
        }
        assert forall|other: SceneObject|
            after.contains(other) && (#[trigger] after.parent_of(other)) is Some implies {
            &&& after.contains(after.parent_of(other)->0)
            &&& after.children_of(after.parent_of(other)->0).contains(other)
        } by {
            assert(scene.parent_of(other) is Some);
        }
        assert forall|other: SceneObject| after.contains(other) implies (
        #[trigger] after.children_of(other)).no_duplicates() by {
            assert(scene.children_of(other).no_duplicates());
        }
        assert forall|other: SceneObject| after.contains(other) implies {
            &&& (#[trigger] after.object(other)).components.attached(other)
            &&& after.object(other).components.kinds_distinct()
        } by {
            assert(scene.object(other).components.attached(other));
        }
    }
}

/// What adding a child changes: the child lists of the former and of the
/// new parent and the parent link of the child, and nothing else.
pub proof fn lemma_add_child_effect(scene: SceneView, object: SceneObject, child: SceneObject)
    requires
        scene.wf(),
        scene.contains(object),
        scene.contains(child),
    ensures
        scene.add_child(object, child).objects.len() == scene.objects.len(),
        scene.add_child(object, child).root == scene.root,
        forall|other: SceneObject|
            scene.contains(other) ==> {
                &&& (#[trigger] scene.add_child(object, child).parent_of(other)) == if other
                    == child {
                    Some(object)
                } else {
                    scene.parent_of(other)
                }
                &&& (#[trigger] scene.add_child(object, child).children_of(other)) == {
                    let kept = if scene.parent_of(child) == Some(other) {
                        without(scene.children_of(other), child)
                    } else {
                        scene.children_of(other)
                    };
                    if other == object {
                        kept.push(child)
                    } else {
                        kept
                    }
                }
                &&& scene.add_child(object, child).object(other).components == scene.object(
                    other,
                ).components
                &&& scene.add_child(object, child).object(other).name == scene.object(other).name
                &&& scene.add_child(object, child).object(other).id == scene.object(other).id
            },
{
    match scene.parent_of(child) {
        Some(former) => {
            assert(scene.contains(former));
            assert(scene.children_of(former).contains(child));
            lemma_remove_child_effect(scene, former, child);
        },
        None => {},
    }
}

/// Adding a child keeps the links in agreement.
pub proof fn lemma_add_child_wf(scene: SceneView, object: SceneObject, child: SceneObject)
    requires
        scene.wf(),
        scene.contains(object),
        scene.contains(child),
    ensures
        scene.add_child(object, child).wf(),
{
    let after = scene.add_child(object, child);
    lemma_add_child_effect(scene, object, child);
    match scene.parent_of(child) {
        Some(former) => {
            lemma_without(scene.children_of(former), child);
        },
        None => {},
    }
    assert forall|other: SceneObject| scene.contains(other) && scene.parent_of(child) != Some(
        other,
    ) implies !scene.children_of(other).contains(child) by {
        if scene.children_of(other).contains(child) {
            let k = scene.children_of(other).index_of(child);
            assert(scene.children_of(other)[k] == child);
        }
    }
    assert forall|other: SceneObject, k: int|
        after.contains(other) && 0 <= k < after.children_of(other).len() implies {
        &&& after.contains(#[trigger] after.children_of(other)[k])
        &&& after.parent_of(after.children_of(other)[k]) == Some(other)
    } by {
        let listed = after.children_of(other)[k];
        let kept = if scene.parent_of(child) == Some(other) {
            without(scene.children_of(other), child)
        } else {
            scene.children_of(other)
        };
        if k < kept.len() {
            assert(kept[k] == listed);
            assert(kept.contains(listed));
            assert(scene.children_of(other).contains(listed));
            let k0 = scene.children_of(other).index_of(listed);
            assert(scene.children_of(other)[k0] == listed);
            assert(listed != child);
        }
    }
    assert forall|other: SceneObject|
        after.contains(other) && (#[trigger] after.parent_of(other)) is Some implies {
        &&& after.contains(after.parent_of(other)->0)
        &&& after.children_of(after.parent_of(other)->0).contains(other)
    } by {
        let parent = after.parent_of(other)->0;
        if other == child {
            let list = after.children_of(object);
            assert(list[list.len() - 1] == child);
        } else {
            assert(scene.parent_of(other) is Some);
            let list = scene.children_of(parent);
            assert(list.contains(other));
            let kept = if scene.parent_of(child) == Some(parent) {
                without(list, child)
            } else {
                list
            };
            assert(kept.contains(other));
            let k = kept.index_of(other);
            assert(after.children_of(parent)[k] == other);
        }
    }
    assert forall|other: SceneObject| after.contains(other) implies (#[trigger] after.children_of(
        other,
    )).no_duplicates() by {
        assert(scene.children_of(other).no_duplicates());
        let kept = if scene.parent_of(child) == Some(other) {
            without(scene.children_of(other), child)
        } else {
            scene.children_of(other)
        };
        assert(kept.no_duplicates());
        assert(!kept.contains(child));
        if other == object {
            let list = kept.push(child);
            assert forall|a: int, b: int| 0 <= a < list.len() && 0 <= b < list.len() && a
                != b implies list[a] != list[b] by {
                if a < kept.len() {
                    assert(kept.contains(kept[a]));
                }
                if b < kept.len() {
                    assert(kept.contains(kept[b]));
                }
            }
        }
    }
    assert forall|other: SceneObject| after.contains(other) implies {
        &&& (#[trigger] after.object(other)).components.attached(other)
        &&& after.object(other).components.kinds_distinct()
    } by {
        assert(scene.object(other).components.attached(other));
    }
}

/// An object stands in the child list of at most one object, and there once.
pub proof fn lemma_single_parent(
    scene: SceneView,
    first: SceneObject,
    second: SceneObject,
    child: SceneObject,
)
    requires
        scene.wf(),
        scene.contains(first),
        scene.contains(second),
        scene.children_of(first).contains(child),
        scene.children_of(second).contains(child),
    ensures
        first == second,
        scene.parent_of(child) == Some(first),
        scene.children_of(first).no_duplicates(),
{
    let a = scene.children_of(first).index_of(child);
    let b = scene.children_of(second).index_of(child);
    assert(scene.children_of(first)[a] == child);
    assert(scene.children_of(second)[b] == child);
}

/// The greatest of the ranks, or zero when there are none.
pub open spec fn rank_bound(rank: Seq<nat>) -> nat
    decreases rank.len(),
{
    if rank.len() == 0 {
        0
    } else if rank.last() > rank_bound(rank.drop_last()) {
        rank.last()
    } else {
        rank_bound(rank.drop_last())
    }
}

/// No rank exceeds the bound.
pub proof fn lemma_rank_bound(rank: Seq<nat>, i: int)
    requires
        0 <= i < rank.len(),
    ensures
        rank[i] <= rank_bound(rank),
    decreases rank.len(),
{
    if i < rank.len() - 1 {
        lemma_rank_bound(rank.drop_last(), i);
    }
}

impl SceneView {
    /// Whether `rank` orders the objects: every object ranks below its parent.
    pub open spec fn ranked_by(self, rank: Seq<nat>) -> bool {
        &&& rank.len() == self.objects.len()
        &&& forall|object: SceneObject|
            self.contains(object) && (#[trigger] self.parent_of(object)) is Some && self.contains(
                self.parent_of(object)->0,
            ) ==> rank[object.index as int] < rank[(self.parent_of(object)->0).index as int]
    }

    /// The graph has no cycle: the objects can be ranked so that each ranks
    /// below its parent.
    pub open spec fn acyclic(self) -> bool {
        exists|rank: Seq<nat>| self.ranked_by(rank)
    }

    /// A ranking of the objects of an acyclic scene.
    pub open spec fn ranking(self) -> Seq<nat> {
        choose|rank: Seq<nat>| self.ranked_by(rank)
    }

    /// The rank of `object` in [`Self::ranking`].
    pub open spec fn rank_of(self, object: SceneObject) -> nat {
        self.ranking()[object.index as int]
    }

    /// The object reached from `object` by `steps` parent links, if the
    /// chain of parents is that long.
    pub open spec fn nth_ancestor(self, object: SceneObject, steps: nat) -> Option<SceneObject>
        decreases steps,
    {
        if steps == 0 {
            Some(object)
        } else {
            match self.nth_ancestor(object, (steps - 1) as nat) {
                Some(below) => if self.contains(below) {
                    self.parent_of(below)
                } else {
                    None
                },
                None => None,
            }
        }
    }

    /// Whether `upper` is `object` itself or one of its ancestors: whether
    /// `object` is reached from `upper` by following child links.
    pub open spec fn is_above(self, upper: SceneObject, object: SceneObject) -> bool {
        exists|steps: nat| self.nth_ancestor(object, steps) == Some(upper)
    }

    /// Whether `object` is reached from `upper` by following one child link
    /// or more.
    pub open spec fn is_strictly_above(self, upper: SceneObject, object: SceneObject) -> bool {
        exists|steps: nat| steps >= 1 && self.nth_ancestor(object, steps) == Some(upper)
    }
}

/// Along a chain of parents the rank grows with every step.
pub proof fn lemma_rank_grows(
    scene: SceneView,
    rank: Seq<nat>,
    object: SceneObject,
    steps: nat,
)
    requires
        scene.wf(),
        scene.ranked_by(rank),
        scene.contains(object),
        scene.nth_ancestor(object, steps) is Some,
    ensures
        scene.contains(scene.nth_ancestor(object, steps)->0),
        rank[object.index as int] + steps <= rank[(scene.nth_ancestor(object, steps)->0).index as int],
    decreases steps,
{
    if steps > 0 {
        let below = scene.nth_ancestor(object, (steps - 1) as nat)->0;
        lemma_rank_grows(scene, rank, object, (steps - 1) as nat);
        assert(scene.parent_of(below) is Some);
    }
}

/// In an acyclic scene no object is reached from itself by following child
/// links.
pub proof fn lemma_acyclic_no_self_reach(scene: SceneView, object: SceneObject)
    requires
        scene.wf(),
        scene.acyclic(),
        scene.contains(object),
    ensures
        !scene.is_strictly_above(object, object),
{
    let rank = scene.ranking();
    assert forall|steps: nat| steps >= 1 implies scene.nth_ancestor(object, steps) != Some(
        object,
    ) by {
        if scene.nth_ancestor(object, steps) is Some {
            lemma_rank_grows(scene, rank, object, steps);
        }
    }
}

/// Removing a child keeps an acyclic scene acyclic.
pub proof fn lemma_remove_child_acyclic(scene: SceneView, object: SceneObject, child: SceneObject)
    requires
        scene.wf(),
        scene.acyclic(),
        scene.contains(object),
        scene.contains(child),
    ensures
        scene.remove_child(object, child).acyclic(),
{
    let after = scene.remove_child(object, child);
    if scene.children_of(object).contains(child) {
        lemma_remove_child_effect(scene, object, child);
        let rank = scene.ranking();
        assert forall|other: SceneObject|
            after.contains(other) && (#[trigger] after.parent_of(other)) is Some && after.contains(
                after.parent_of(other)->0,
            ) implies rank[other.index as int] < rank[(after.parent_of(other)->0).index as int] by {
            assert(scene.parent_of(other) is Some);
        }
        assert(after.ranked_by(rank));
    }
}

/// Adding a child keeps an acyclic scene acyclic, unless the child is the
/// object itself or stands above it.
pub proof fn lemma_add_child_acyclic(scene: SceneView, object: SceneObject, child: SceneObject)
    requires
        scene.wf(),
        scene.acyclic(),
        scene.contains(object),
        scene.contains(child),
        !scene.is_above(child, object),
    ensures
        scene.add_child(object, child).acyclic(),
{
    let after = scene.add_child(object, child);
    lemma_add_child_effect(scene, object, child);
    let rank = scene.ranking();
    let lift = rank_bound(rank) + 1;
    let lifted = Seq::new(
        rank.len(),
        |i: int|
            if scene.is_above(SceneObject { index: i as usize }, object) {
                (rank[i] + lift) as nat
            } else {
                rank[i]
            },
    );
    assert(scene.nth_ancestor(object, 0) == Some(object));
    assert(scene.is_above(object, object));
    assert forall|other: SceneObject|
        after.contains(other) && (#[trigger] after.parent_of(other)) is Some && after.contains(
            after.parent_of(other)->0,
        ) implies lifted[other.index as int] < lifted[(after.parent_of(other)->0).index as int] by {
        let parent = after.parent_of(other)->0;
        assert(SceneObject { index: other.index as int as usize } == other);
        assert(SceneObject { index: parent.index as int as usize } == parent);
        lemma_rank_bound(rank, other.index as int);
        lemma_rank_bound(rank, parent.index as int);
        if other == child {
            assert(parent == object);
        } else {
            assert(scene.parent_of(other) == Some(parent));
            if scene.is_above(other, object) {
                let steps = choose|steps: nat| scene.nth_ancestor(object, steps) == Some(other);
                assert(scene.nth_ancestor(object, steps + 1) == Some(parent));
                assert(scene.is_above(parent, object));
            }
        }
    }
    assert(after.ranked_by(lifted));
}

impl SceneView {
    /// The scene after `component` was added to `object`.
    pub open spec fn add_component(self, object: SceneObject, component: ComponentView) -> SceneView {
        self.with_object(
            object,
            ObjectView {
                components: self.object(object).components.with_component(component, object),
                ..self.object(object)
            },
        )
    }

    /// The scene with the transform of `object` replaced.
    pub open spec fn set_transform(self, object: SceneObject, transform: Transform) -> SceneView {
        self.with_object(
            object,
            ObjectView {
                components: ContainerView { transform, ..self.object(object).components },
                ..self.object(object)
            },
        )
    }

    /// The scene with the name of `object` replaced.
    pub open spec fn set_name(self, object: SceneObject, name: Seq<char>) -> SceneView {
        self.with_object(object, ObjectView { name, ..self.object(object) })
    }

    /// Whether two scenes have the same links between their objects.
    pub open spec fn same_links(self, other: SceneView) -> bool {
        &&& self.objects.len() == other.objects.len()
        &&& self.root == other.root
        &&& forall|object: SceneObject|
            self.contains(object) ==> (#[trigger] self.parent_of(object)) == other.parent_of(
                object,
            )
        &&& forall|object: SceneObject|
            self.contains(object) ==> (#[trigger] self.children_of(object)) == other.children_of(
                object,
            )
    }
}

/// A change that leaves the links alone, and the containers attached with
/// distinct kinds, keeps a scene well formed and acyclic.
pub proof fn lemma_same_links(before: SceneView, after: SceneView)
    requires
        before.wf(),
        before.same_links(after),
        after.components_wf(),
    ensures
        after.wf(),
        before.acyclic() ==> after.acyclic(),
{
    assert forall|object: SceneObject, k: int|
        after.contains(object) && 0 <= k < after.children_of(object).len() implies {
        &&& after.contains(#[trigger] after.children_of(object)[k])
        &&& after.parent_of(after.children_of(object)[k]) == Some(object)
    } by {
        assert(before.children_of(object) == after.children_of(object));
        let listed = before.children_of(object)[k];
        assert(before.contains(listed));
        assert(before.parent_of(listed) == after.parent_of(listed));
    }
    assert forall|object: SceneObject|
        after.contains(object) && (#[trigger] after.parent_of(object)) is Some implies {
        &&& after.contains(after.parent_of(object)->0)
        &&& after.children_of(after.parent_of(object)->0).contains(object)
    } by {
        assert(before.parent_of(object) == after.parent_of(object));
        let parent = before.parent_of(object)->0;
        assert(before.children_of(parent) == after.children_of(parent));
    }
    assert forall|object: SceneObject| after.contains(object) implies (#[trigger] after.children_of(
        object,
    )).no_duplicates() by {
        assert(before.children_of(object) == after.children_of(object));
    }
    if before.acyclic() {
        let rank = before.ranking();
        assert forall|object: SceneObject|
            after.contains(object) && (#[trigger] after.parent_of(object)) is Some
                && after.contains(after.parent_of(object)->0) implies rank[object.index as int]
            < rank[(after.parent_of(object)->0).index as int] by {
            assert(before.parent_of(object) == after.parent_of(object));
        }
        assert(after.ranked_by(rank));
    }
}

/// Where a chain of parents has ended, it stays ended.
pub proof fn lemma_chain_ends(scene: SceneView, object: SceneObject, steps: nat, further: nat)
    requires
        scene.nth_ancestor(object, steps) matches Some(top) && scene.contains(top)
            && scene.parent_of(top) is None,
        further > steps,
    ensures
        scene.nth_ancestor(object, further) is None,
    decreases further,
{
    if further > steps + 1 {
        lemma_chain_ends(scene, object, steps, (further - 1) as nat);
    }
}

/// Above an object without a parent stands only the object itself.
pub proof fn lemma_above_parentless(scene: SceneView, upper: SceneObject, object: SceneObject)
    requires
        scene.contains(object),
        scene.parent_of(object) is None,
    ensures
        scene.is_above(upper, object) <==> upper == object,
{
    assert(scene.nth_ancestor(object, 0) == Some(object));
    if scene.is_above(upper, object) {
        let steps = choose|steps: nat| scene.nth_ancestor(object, steps) == Some(upper);
        if steps > 0 {
            lemma_chain_ends(scene, object, 0, steps);
        }
    }
}

/// What stands below an object of the scene is an object of the scene.
pub proof fn lemma_below_is_contained(scene: SceneView, upper: SceneObject, object: SceneObject)
    requires
        scene.contains(upper),
        scene.is_above(upper, object),
    ensures
        scene.contains(object),
{
    let steps = choose|steps: nat| scene.nth_ancestor(object, steps) == Some(upper);
    if steps >= 1 {
        lemma_chain_starts_inside(scene, object, steps);
    }
}

/// A chain of parents of one step or more starts at an object of the scene.
pub proof fn lemma_chain_starts_inside(scene: SceneView, object: SceneObject, steps: nat)
    requires
        steps >= 1,
        scene.nth_ancestor(object, steps) is Some,
    ensures
        scene.contains(object),
    decreases steps,
{
    if steps > 1 {
        assert(scene.nth_ancestor(object, (steps - 1) as nat) is Some);
        lemma_chain_starts_inside(scene, object, (steps - 1) as nat);
    } else {
        assert(scene.nth_ancestor(object, 0) == Some(object));
    }
}

/// What stands below a child stands below the object that lists the child.
pub proof fn lemma_below_child_is_below(
    scene: SceneView,
    object: SceneObject,
    k: int,
    lower: SceneObject,
)
    requires
        scene.wf(),
        scene.contains(object),
        0 <= k < scene.children_of(object).len(),
        scene.is_above(scene.children_of(object)[k], lower),
    ensures
        scene.is_above(object, lower),
{
    let child = scene.children_of(object)[k];
    let steps = choose|steps: nat| scene.nth_ancestor(lower, steps) == Some(child);
    assert(scene.contains(child));
    assert(scene.parent_of(child) == Some(object));
    assert(scene.nth_ancestor(lower, steps + 1) == Some(object));
}

} // verus!
