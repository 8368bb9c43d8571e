//! A plain tree of values that owns its subtrees and can be written out as
//! text.

use crate::text::{bracketed, bracketed_text, views_of};
use core::fmt::Debug;
use vstd::prelude::*;

verus! {

/// A node of a tree: a value and the subtrees below it, in their order.
pub struct TreeNode<T> {
    object: T,
    childs: Vec<TreeNode<T>>,
}

/// `Debug` formatting of a value, as `format!("{:?}", value)` gives it. The
/// text is decided by the `Debug` implementation of `T`; nothing is known
/// of it here.
#[verifier::external_body]
fn debug_text<T: Debug>(value: &T) -> (text: String) {
    format!("{:?}", value)
}

impl<T> TreeNode<T> {
    /// The value of the node.
    pub closed spec fn value(&self) -> T {
        self.object
    }

    /// The subtrees of the node, in their order.
    pub closed spec fn children(&self) -> Seq<TreeNode<T>> {
        self.childs@
    }

    /// Whether `text` writes the tree out: some label for the value of the
    /// node, followed in square brackets by texts that write out the
    /// subtrees, in their order and separated by commas.
    pub open spec fn written_as(&self, text: Seq<char>) -> bool
        decreases self,
    {
        exists|label: Seq<char>, parts: Seq<Seq<char>>|
            {
                &&& parts.len() == self.children().len()
                &&& forall|i: int|
                    0 <= i < parts.len() ==> (#[trigger] self.children()[i]).written_as(parts[i])
                &&& text == #[trigger] bracketed_text(label, parts)
            }
    }
}

impl<T: Debug> TreeNode<T> {
    /// A tree of the single value `value`.
    pub fn new(value: T) -> (node: TreeNode<T>)
        ensures
            node.value() == value,
            node.children() == Seq::<TreeNode<T>>::empty(),
    {
        TreeNode { object: value, childs: Vec::new() }
    }

    /// Makes `new_node` the last subtree of the node.
    pub fn add_child(&mut self, new_node: TreeNode<T>)
        ensures
            final(self).value() == old(self).value(),
            final(self).children() == old(self).children().push(new_node),
    {
        self.childs.push(new_node);
    }

    /// The number of subtrees of the node.
    pub fn child_count(&self) -> (count: usize)
        ensures
            count == self.children().len(),
    {
        self.childs.len()
    }

    /// Writes the tree out: the `Debug` text of the value, then the subtrees
    /// in square brackets, separated by commas.
    pub fn print(&self) -> (text: String)
        ensures
            self.written_as(text@),
        decreases self,
    {
        let label = debug_text(&self.object);
        let mut parts: Vec<String> = Vec::new();
        let mut i: usize = 0;
        while i < self.childs.len()
            invariant
                i <= self.childs.len(),
                parts.len() == i,
                forall|j: int| 0 <= j < i ==> (#[trigger] self.childs@[j]).written_as(parts@[j]@),
            decreases self.childs.len() - i,
        {
            let part = self.childs[i].print();
            parts.push(part);
            i = i + 1;
        }
        let text = bracketed(label.as_str(), &parts);
        proof {
            let views = views_of(parts@);
            assert forall|j: int| 0 <= j < views.len() implies (#[trigger] self.childs@[j]).written_as(
                views[j],
            ) by {
                assert(views[j] == parts@[j]@);
            }
            assert(text@ == bracketed_text(label@, views));
        }
        text
    }
}

} // verus!
