use scene_core::tree::TreeNode;

#[test]
fn print_writes_values_and_subtrees() {
    let mut root = TreeNode::new("Root");
    root.add_child(TreeNode::new("Child1"));
    root.add_child(TreeNode::new("Child2"));
    root.add_child(TreeNode::new("Child3"));
    let mut child4 = TreeNode::new("Child4");
    child4.add_child(TreeNode::new("Child4.1"));
    child4.add_child(TreeNode::new("Child4.2"));
    root.add_child(child4);
    assert_eq!(
        root.print(),
        "\"Root\"[\"Child1\"[],\"Child2\"[],\"Child3\"[],\"Child4\"[\"Child4.1\"[],\"Child4.2\"[]]]"
    );
    assert_eq!(root.child_count(), 4);
}

#[test]
fn print_of_a_leaf_has_empty_brackets() {
    assert_eq!(TreeNode::new(7u32).print(), "7[]");
}
