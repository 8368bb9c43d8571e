//! The order in which the objects below an object are visited: the object
//! first, then the objects below each of its children, child by child.

use crate::graph::SceneView;
use crate::scene::SceneObject;
use vstd::prelude::*;

verus! {

impl SceneView {
    /// Whether the objects below `object` can be visited: the scene is well
    /// formed and acyclic and holds the object.
    pub open spec fn visitable(self, object: SceneObject) -> bool {
        &&& self.wf()
        &&& self.acyclic()
        &&& self.contains(object)
    }

    /// `object` and the objects below it, each before the objects below it
    /// and the children of an object in the order of its child list.
    pub open spec fn preorder(self, object: SceneObject) -> Seq<SceneObject>
        decreases self.rank_of(object), 1int, 0int,
        when self.visitable(object)
    {
        seq![object] + self.preorder_of_children(object, 0)
    }

    /// The objects at and below the children of `object` from the `k`-th
    /// child on, in the order of [`Self::preorder`].
    pub open spec fn preorder_of_children(self, object: SceneObject, k: int) -> Seq<SceneObject>
        decreases self.rank_of(object), 0int, self.children_of(object).len() - k,
        when self.visitable(object) && 0 <= k
    {
        if k < self.children_of(object).len() {
            proof {
                self.lemma_child_ranks_below(object, k);
            }
            self.preorder(self.children_of(object)[k]) + self.preorder_of_children(object, k + 1)
        } else {
            Seq::empty()
        }
    }

    /// A child is an object of the scene and ranks below the object that
    /// lists it.
    pub proof fn lemma_child_ranks_below(self, object: SceneObject, k: int)
        requires
            self.visitable(object),
            0 <= k < self.children_of(object).len(),
        ensures
            self.visitable(self.children_of(object)[k]),
            self.rank_of(self.children_of(object)[k]) < self.rank_of(object),
    {
        let child = self.children_of(object)[k];
        assert(self.ranked_by(self.ranking()));
        assert(self.parent_of(child) == Some(object));
    }

    /// The first object of `list` whose identity is `id`, if there is one.
    pub open spec fn first_with_id(self, list: Seq<SceneObject>, id: Seq<char>) -> Option<
        SceneObject,
    >
        decreases list.len(),
    {
        if list.len() == 0 {
            None
        } else if self.object(list[0]).id == id {
            Some(list[0])
        } else {
            self.first_with_id(list.drop_first(), id)
        }
    }

    /// The first match of two lists written one after the other is the
    /// first match of the first list, or else that of the second.
    pub proof fn lemma_first_with_id_of_concat(
        self,
        front: Seq<SceneObject>,
        back: Seq<SceneObject>,
        id: Seq<char>,
    )
        ensures
            self.first_with_id(front + back, id) == match self.first_with_id(front, id) {
                Some(found) => Some(found),
                None => self.first_with_id(back, id),
            },
        decreases front.len(),
    {
        if front.len() == 0 {
            assert(front + back =~= back);
        } else {
            assert((front + back)[0] == front[0]);
            assert((front + back).drop_first() =~= front.drop_first() + back);
            self.lemma_first_with_id_of_concat(front.drop_first(), back, id);
        }
    }

    /// What [`Self::first_with_id`] finds is in the list, has the identity,
    /// and comes before every other object of the list that has it.
    pub proof fn lemma_first_with_id(self, list: Seq<SceneObject>, id: Seq<char>)
        ensures
            match self.first_with_id(list, id) {
                Some(found) => exists|i: int|
                    {
                        &&& 0 <= i < list.len()
                        &&& #[trigger] list[i] == found
                        &&& self.object(found).id == id
                        &&& forall|j: int| 0 <= j < i ==> self.object(#[trigger] list[j]).id != id
                    },
                None => forall|j: int| 0 <= j < list.len() ==> self.object(#[trigger] list[j]).id != id,
            },
        decreases list.len(),
    {
        if list.len() == 0 {
        } else if self.object(list[0]).id == id {
            assert(list[0] == list[0]);
        } else {
            let rest = list.drop_first();
            self.lemma_first_with_id(rest, id);
            match self.first_with_id(rest, id) {
                Some(found) => {
                    let i = choose|i: int|
                        {
                            &&& 0 <= i < rest.len()
                            &&& #[trigger] rest[i] == found
                            &&& self.object(found).id == id
                            &&& forall|j: int|
                                0 <= j < i ==> self.object(#[trigger] rest[j]).id != id
                        };
                    assert(list[i + 1] == found);
                    assert forall|j: int| 0 <= j < i + 1 implies self.object(
                        #[trigger] list[j],
                    ).id != id by {
                        if j > 0 {
                            assert(list[j] == rest[j - 1]);
                        }
                    }
                },
                None => {
                    assert forall|j: int| 0 <= j < list.len() implies self.object(
                        #[trigger] list[j],
                    ).id != id by {
                        if j > 0 {
                            assert(list[j] == rest[j - 1]);
                        }
                    }
                },
            }
        }
    }
}

} // verus!
