//! The saved form of a scene: a tree of plain values without parent links,
//! and the way from a scene to its saved form and back.

use crate::component::lemma_position_is_unique;
use crate::graph::{
    lemma_above_parentless, lemma_add_child_acyclic, lemma_add_child_effect,
    lemma_below_child_is_below, lemma_below_is_contained, ObjectView, SceneView,
};
use crate::identity::Uuid;
use crate::mesh_filter::MeshFilter;
use crate::scene::{fresh_object, Scene, SceneObject};
use crate::transform::Transform;
use vstd::prelude::*;

verus! {

/// The saved form of an object: its name and identity, its transform,
/// whether it has a mesh filter, and the saved forms of its children.
pub struct ObjectDocument {
    pub name: String,
    pub uuid: Uuid,
    pub transform: Transform,
    pub mesh_filter: bool,
    pub childs: Vec<ObjectDocument>,
}

/// The saved form of a scene: its name and identity and its root.
pub struct SceneDocument {
    pub name: String,
    pub uuid: Uuid,
    pub root: ObjectDocument,
}

/// An [`ObjectDocument`] as a mathematical value.
pub struct ObjectDocumentView {
    pub name: Seq<char>,
    pub uuid: Seq<char>,
    pub transform: Transform,
    pub mesh_filter: bool,
    pub childs: Seq<ObjectDocumentView>,
}

/// A [`SceneDocument`] as a mathematical value.
pub struct SceneDocumentView {
    pub name: Seq<char>,
    pub uuid: Seq<char>,
    pub root: ObjectDocumentView,
}

/// The views of the documents of `documents` from the `k`-th on.
pub open spec fn document_views(documents: Seq<ObjectDocument>, k: int) -> Seq<ObjectDocumentView>
    decreases documents, documents.len() - k,
{
    if 0 <= k < documents.len() {
        seq![documents[k]@] + document_views(documents, k + 1)
    } else {
        Seq::empty()
    }
}

impl View for ObjectDocument {
    type V = ObjectDocumentView;

    open spec fn view(&self) -> ObjectDocumentView
        decreases self,
    {
        ObjectDocumentView {
            name: self.name@,
            uuid: self.uuid@,
            transform: self.transform,
            mesh_filter: self.mesh_filter,
            childs: document_views(self.childs@, 0),
        }
    }
}

impl View for SceneDocument {
    type V = SceneDocumentView;

    open spec fn view(&self) -> SceneDocumentView {
        SceneDocumentView { name: self.name@, uuid: self.uuid@, root: self.root@ }
    }
}

/// The views of a list of documents are the views of its members.
pub proof fn lemma_document_views(documents: Seq<ObjectDocument>, k: int)
    requires
        0 <= k <= documents.len(),
    ensures
        document_views(documents, k).len() == documents.len() - k,
        forall|i: int|
            0 <= i < documents.len() - k ==> (#[trigger] document_views(documents, k)[i])
                == documents[k + i]@,
    decreases documents.len() - k,
{
    if k < documents.len() {
        lemma_document_views(documents, k + 1);
        let rest = document_views(documents, k + 1);
        assert(document_views(documents, k) == seq![documents[k]@] + rest);
        assert forall|i: int| 0 <= i < documents.len() - k implies (#[trigger] document_views(
            documents,
            k,
        )[i]) == documents[k + i]@ by {
            if i > 0 {
                assert(document_views(documents, k)[i] == rest[i - 1]);
            }
        }
    } else {
        assert(document_views(documents, k) == Seq::<ObjectDocumentView>::empty());
    }
}

impl SceneView {
    /// Whether `object` has a mesh filter.
    pub open spec fn has_mesh_filter(self, object: SceneObject) -> bool {
        self.object(object).components.find(MeshFilter::IDENT@) is Some
    }

    /// The saved form of `object` and of the objects below it.
    pub open spec fn document_of(self, object: SceneObject) -> ObjectDocumentView
        decreases self.rank_of(object), 1int, 0int,
        when self.visitable(object)
    {
        ObjectDocumentView {
            name: self.object(object).name,
            uuid: self.object(object).id,
            transform: self.object(object).components.transform,
            mesh_filter: self.has_mesh_filter(object),
            childs: self.documents_of_children(object, 0),
        }
    }

    /// The saved forms of the children of `object` from the `k`-th on.
    pub open spec fn documents_of_children(self, object: SceneObject, k: int) -> Seq<
        ObjectDocumentView,
    >
        decreases self.rank_of(object), 0int, self.children_of(object).len() - k,
        when self.visitable(object) && 0 <= k
    {
        if k < self.children_of(object).len() {
            proof {
                self.lemma_child_ranks_below(object, k);
            }
            seq![self.document_of(self.children_of(object)[k])] + self.documents_of_children(
                object,
                k + 1,
            )
        } else {
            Seq::empty()
        }
    }

    /// The saved form of the scene. The selection is not part of it.
    pub open spec fn document(self) -> SceneDocumentView {
        SceneDocumentView { name: self.name, uuid: self.id, root: self.document_of(self.root) }
    }

    /// The saved forms of the children are the saved forms of each child.
    pub proof fn lemma_documents_of_children(self, object: SceneObject, k: int)
        requires
            self.visitable(object),
            0 <= k <= self.children_of(object).len(),
        ensures
            self.documents_of_children(object, k).len() == self.children_of(object).len() - k,
            forall|i: int|
                0 <= i < self.children_of(object).len() - k ==> (
                #[trigger] self.documents_of_children(object, k)[i]) == self.document_of(
                    self.children_of(object)[k + i],
                ),
        decreases self.children_of(object).len() - k,
    {
        if k < self.children_of(object).len() {
            self.lemma_documents_of_children(object, k + 1);
        }
    }
}

impl Scene {
    /// The saved form of `object` and of the objects below it.
    pub fn object_document(&self, object: SceneObject) -> (document: ObjectDocument)
        requires
            self@.visitable(object),
        ensures
            document@ == self@.document_of(object),
        decreases self@.rank_of(object),
    {
        let children = object.children(self);
        let mut childs: Vec<ObjectDocument> = Vec::new();
        let mut k: usize = 0;
        while k < children.len()
            invariant
                k <= children.len(),
                children@ == self@.children_of(object),
                self@.visitable(object),
                childs.len() == k,
                forall|i: int| 0 <= i < k ==> (#[trigger] childs@[i])@ == self@.document_of(
                    self@.children_of(object)[i],
                ),
            decreases children.len() - k,
        {
            proof {
                self@.lemma_child_ranks_below(object, k as int);
            }
            let below = self.object_document(children[k]);
            childs.push(below);
            k = k + 1;
        }
        proof {
            assert(self@.object(object).components.kinds_distinct());
        }
        let mesh_filter = object.get_component(self, MeshFilter::IDENT).is_some();
        let document = ObjectDocument {
            name: object.name(self),
            uuid: object.id(self),
            transform: object.get_transform(self),
            mesh_filter,
            childs,
        };
        proof {
            lemma_document_views(document.childs@, 0);
            self@.lemma_documents_of_children(object, 0);
            assert(document@.childs =~= self@.documents_of_children(object, 0));
        }
        document
    }

    /// The saved form of the scene.
    pub fn to_document(&self) -> (document: SceneDocument)
        requires
            self@.wf(),
            self@.acyclic(),
        ensures
            document@ == self@.document(),
    {
        SceneDocument {
            name: self.name(),
            uuid: self.id(),
            root: self.object_document(self.root()),
        }
    }
}

impl SceneView {
    /// Whether `object` holds in `other` what it holds here, but for its
    /// parent link.
    pub open spec fn same_content(self, other: SceneView, object: SceneObject) -> bool {
        &&& other.contains(object)
        &&& other.object(object).name == self.object(object).name
        &&& other.object(object).id == self.object(object).id
        &&& other.object(object).components == self.object(object).components
        &&& other.object(object).children == self.object(object).children
    }

    /// The saved form of an object depends only on what the object and the
    /// objects below it hold.
    pub proof fn lemma_document_is_local(self, other: SceneView, object: SceneObject)
        requires
            self.visitable(object),
            other.visitable(object),
            forall|lower: SceneObject|
                self.is_above(object, lower) ==> #[trigger] self.same_content(other, lower),
        ensures
            self.document_of(object) == other.document_of(object),
        decreases self.rank_of(object),
    {
        assert(self.nth_ancestor(object, 0) == Some(object));
        assert(self.is_above(object, object));
        assert(self.same_content(other, object));
        self.lemma_documents_of_children(object, 0);
        other.lemma_documents_of_children(object, 0);
        assert forall|k: int| 0 <= k < self.children_of(object).len() implies self.document_of(
            self.children_of(object)[k],
        ) == other.document_of(self.children_of(object)[k]) by {
            let child = self.children_of(object)[k];
            self.lemma_child_ranks_below(object, k);
            other.lemma_child_ranks_below(object, k);
            assert forall|lower: SceneObject| self.is_above(child, lower) implies #[trigger] self.same_content(
                other,
                lower,
            ) by {
                lemma_below_child_is_below(self, object, k, lower);
            }
            self.lemma_document_is_local(other, child);
        }
        assert(self.documents_of_children(object, 0) =~= other.documents_of_children(object, 0));
    }
}

/// One step of rebuilding the children of an object: a newly made child was
/// filled and then added to the object. The saved forms of the children
/// that were there stay, and that of the new child is the one it was filled
/// from.
proof fn lemma_fill_step(
    before: SceneView,
    made: SceneView,
    filled: SceneView,
    after: SceneView,
    object: SceneObject,
    child: SceneObject,
)
    requires
        before.wf(),
        before.acyclic(),
        before.contains(object),
        before.parent_of(object) is None,
        child.index == before.objects.len(),
        made.objects.len() == before.objects.len() + 1,
        forall|other: SceneObject|
            before.contains(other) ==> (#[trigger] made.object(other)) == before.object(other),
        filled.wf(),
        filled.acyclic(),
        filled.objects.len() >= made.objects.len(),
        forall|other: SceneObject|
            made.contains(other) && other != child ==> (#[trigger] filled.object(other))
                == made.object(other),
        filled.parent_of(child) is None,
        after == filled.add_child(object, child),
        after.wf(),
    ensures
        after.acyclic(),
        after.objects.len() == filled.objects.len(),
        forall|other: SceneObject|
            before.contains(other) && other != object ==> (#[trigger] after.object(other))
                == before.object(other),
        after.object(object) == (ObjectView {
            children: before.children_of(object).push(child),
            ..before.object(object)
        }),
        after.document_of(child) == filled.document_of(child),
        forall|i: int|
            0 <= i < before.children_of(object).len() ==> after.document_of(
                #[trigger] before.children_of(object)[i],
            ) == before.document_of(before.children_of(object)[i]),
{
    assert(made.contains(object) && made.contains(child));
    assert(filled.object(object) == made.object(object));
    assert(made.object(object) == before.object(object));
    assert(child != object);
    lemma_above_parentless(filled, child, object);
    lemma_add_child_acyclic(filled, object, child);
    lemma_add_child_effect(filled, object, child);
    assert forall|other: SceneObject| filled.contains(other) && other != object && other
        != child implies (#[trigger] after.object(other)) == filled.object(other) by {
        assert(after.parent_of(other) == filled.parent_of(other));
        assert(after.children_of(other) == filled.children_of(other));
    }
    assert forall|other: SceneObject| before.contains(other) && other != object implies (
    #[trigger] after.object(other)) == before.object(other) by {
        assert(filled.object(other) == made.object(other));
        assert(made.object(other) == before.object(other));
    }
    assert(after.parent_of(object) == filled.parent_of(object));
    assert(after.children_of(object) == filled.children_of(object).push(child));
    assert(after.object(object).children == before.children_of(object).push(child));
    assert forall|lower: SceneObject| filled.is_above(child, lower) implies #[trigger] filled.same_content(
        after,
        lower,
    ) by {
        lemma_below_is_contained(filled, child, lower);
        lemma_above_parentless(filled, child, object);
        assert(lower != object);
        assert(after.parent_of(lower) == if lower == child {
            Some(object)
        } else {
            filled.parent_of(lower)
        });
        assert(after.children_of(lower) == filled.children_of(lower));
    }
    filled.lemma_document_is_local(after, child);
    assert forall|i: int| 0 <= i < before.children_of(object).len() implies after.document_of(
        #[trigger] before.children_of(object)[i],
    ) == before.document_of(before.children_of(object)[i]) by {
        let sibling = before.children_of(object)[i];
        assert(before.contains(sibling));
        assert(before.parent_of(sibling) == Some(object));
        assert forall|lower: SceneObject| before.is_above(sibling, lower) implies #[trigger] before.same_content(
            after,
            lower,
        ) by {
            lemma_below_is_contained(before, sibling, lower);
            lemma_above_parentless(before, sibling, object);
            assert(lower != object);
            assert(after.object(lower) == before.object(lower));
        }
        before.lemma_document_is_local(after, sibling);
    }
}

impl Scene {
    /// Rebuilds below the newly made `object` what `document` saved: its
    /// transform, its mesh filter, and its children with all that is below
    /// them, each with its parent link set.
    fn fill(&mut self, object: SceneObject, document: &ObjectDocument)
        requires
            old(self)@.wf(),
            old(self)@.acyclic(),
            old(self)@.contains(object),
            old(self)@.object(object) == fresh_object(document.name@, document.uuid@, object),
        ensures
            final(self)@.wf(),
            final(self)@.acyclic(),
            final(self)@.objects.len() >= old(self)@.objects.len(),
            forall|other: SceneObject|
                old(self)@.contains(other) && other != object ==> (#[trigger] final(self)@.object(
                    other,
                )) == old(self)@.object(other),
            final(self)@.parent_of(object) is None,
            final(self)@.document_of(object) == document@,
            final(self)@.root == old(self)@.root,
            final(self)@.name == old(self)@.name,
            final(self)@.id == old(self)@.id,
            final(self)@.selected == old(self)@.selected,
        decreases document,
    {
        object.set_transform(self, document.transform);
        if document.mesh_filter {
            object.add_component(self, MeshFilter::new());
            proof {
                let held = self@.object(object).components;
                assert(held.components[0].ident() == MeshFilter::IDENT@);
                lemma_position_is_unique(held, MeshFilter::IDENT@, 0);
            }
        }
        let count = document.childs.len();
        let mut k: usize = 0;
        proof {
            assert(self@.children_of(object) =~= Seq::<SceneObject>::empty());
        }
        while k < count
            invariant
                k <= count,
                count == document.childs@.len(),
                self@.wf(),
                self@.acyclic(),
                self@.contains(object),
                old(self)@.contains(object),
                self@.objects.len() >= old(self)@.objects.len(),
                forall|other: SceneObject|
                    old(self)@.contains(other) && other != object ==> (#[trigger] self@.object(
                        other,
                    )) == old(self)@.object(other),
                self@.object(object).name == document.name@,
                self@.object(object).id == document.uuid@,
                self@.object(object).components.transform == document.transform,
                self@.has_mesh_filter(object) == document.mesh_filter,
                self@.parent_of(object) is None,
                self@.children_of(object).len() == k,
                forall|i: int|
                    0 <= i < k ==> self@.document_of(#[trigger] self@.children_of(object)[i])
                        == document.childs@[i]@,
                self@.root == old(self)@.root,
                self@.name == old(self)@.name,
                self@.id == old(self)@.id,
                self@.selected == old(self)@.selected,
            decreases count - k,
        {
            let below = &document.childs[k];
            let ghost before = self@;
            let child = SceneObject::with_id(self, below.name.as_str(), below.uuid.clone());
            let ghost made = self@;
            self.fill(child, below);
            let ghost filled = self@;
            object.add_child(self, child);
            proof {
                lemma_fill_step(before, made, filled, self@, object, child);
                assert forall|i: int| 0 <= i < k + 1 implies self@.document_of(
                    #[trigger] self@.children_of(object)[i],
                ) == document.childs@[i]@ by {
                    if i < k {
                        assert(self@.children_of(object)[i] == before.children_of(object)[i]);
                    }
                }
            }
            k = k + 1;
        }
        proof {
            lemma_document_views(document.childs@, 0);
            self@.lemma_documents_of_children(object, 0);
            assert(self@.documents_of_children(object, 0) =~= document_views(
                document.childs@,
                0,
            ));
        }
    }

    /// The scene that `document` saved: the objects with their names,
    /// identities, transforms and mesh filters, the children of each in
    /// their saved order, and the parent link of every object but the root
    /// set to the object that lists it. Nothing is selected.
    pub fn from_document(document: &SceneDocument) -> (scene: Scene)
        ensures
            scene@.wf(),
            scene@.acyclic(),
            scene@.document() == document@,
            scene@.parent_of(scene@.root) is None,
            scene@.selected is None,
    {
        let mut scene = Scene::with_root(
            document.name.as_str(),
            document.uuid.clone(),
            document.root.name.as_str(),
            document.root.uuid.clone(),
        );
        let root = scene.root();
        scene.fill(root, &document.root);
        scene
    }
}

} // verus!
