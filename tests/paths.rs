use omtools::error::OmError;
use omtools::tree::{chunks_label, extents_label, name_label, VariableNode, VariableTree};

fn node(name: Option<&str>, dims: Vec<u64>) -> VariableNode {
    VariableNode::new(name, dims, vec![]).unwrap()
}

fn names(tree: &VariableTree) -> Vec<String> {
    tree.listing().iter().map(|e| e.path.iter().collect::<String>()).collect()
}

#[test]
fn child_alias_selects_only_child() {
    let mut tree = VariableTree::new(node(Some("data"), vec![2, 3]));
    let c = tree.add_child(0, node(Some("temperature"), vec![4]));
    assert_eq!(tree.resolve("child_0"), Ok(c));
    assert_eq!(tree.resolve("data/child_0"), Ok(c));
}

#[test]
fn missing_name_on_childless_root() {
    let tree = VariableTree::new(node(Some("data"), vec![2, 3]));
    assert_eq!(tree.resolve("missing"), Err(OmError::NotFound));
}

#[test]
fn first_of_equal_names_wins() {
    let mut tree = VariableTree::new(node(Some("root_var"), vec![1]));
    let a0 = tree.add_child(0, node(Some("A"), vec![1]));
    let b = tree.add_child(0, node(Some("B"), vec![1]));
    let _a1 = tree.add_child(0, node(Some("A"), vec![1]));
    assert_eq!(tree.resolve("A"), Ok(a0));
    assert_eq!(tree.resolve("A"), Ok(a0));
    assert_eq!(tree.resolve("B"), Ok(b));
    assert_eq!(tree.resolve("child_2"), Ok(3));
}

#[test]
fn root_aliases() {
    let mut tree = VariableTree::new(node(Some("data"), vec![2]));
    tree.add_child(0, node(Some("x"), vec![1]));
    assert_eq!(tree.resolve(""), Ok(0));
    assert_eq!(tree.resolve("root"), Ok(0));
    assert_eq!(tree.resolve("."), Ok(0));
    assert_eq!(tree.resolve("data"), Ok(0));
}

#[test]
fn nameless_root_consumes_unnamed_and_child_zero() {
    let mut tree = VariableTree::new(node(None, vec![2]));
    let anon = tree.add_child(0, node(None, vec![1]));
    let named = tree.add_child(0, node(Some("n"), vec![1]));
    assert_eq!(tree.resolve("unnamed"), Ok(0));
    assert_eq!(tree.resolve("child_0"), Ok(0));
    assert_eq!(tree.resolve("unnamed/unnamed"), Ok(anon));
    assert_eq!(tree.resolve("child_0/child_1"), Ok(named));
    assert_eq!(tree.resolve("n"), Ok(named));
}

#[test]
fn index_alias_does_not_fall_back_to_names() {
    let mut tree = VariableTree::new(node(Some("r"), vec![2]));
    tree.add_child(0, node(Some("child_x"), vec![1]));
    assert_eq!(tree.resolve("child_x"), Err(OmError::NotFound));
    assert_eq!(tree.resolve("child_5"), Err(OmError::NotFound));
    assert_eq!(tree.resolve("child_+0"), Ok(1));
}

#[test]
fn nested_paths_descend() {
    let mut tree = VariableTree::new(node(Some("r"), vec![2]));
    let g = tree.add_child(0, node(Some("group"), vec![1]));
    let leaf = tree.add_child(g, node(Some("leaf"), vec![3]));
    assert_eq!(tree.resolve("group/leaf"), Ok(leaf));
    assert_eq!(tree.resolve("r/group/leaf"), Ok(leaf));
    assert_eq!(tree.resolve("group/missing"), Err(OmError::NotFound));
    assert_eq!(tree.resolve("group//leaf"), Err(OmError::NotFound));
}

#[test]
fn node_rejects_bad_chunk_shapes() {
    assert!(matches!(
        VariableNode::new(Some("v"), vec![4, 4], vec![2]),
        Err(OmError::ShapeMismatch)
    ));
    assert!(matches!(
        VariableNode::new(Some("v"), vec![4, 4], vec![2, 0]),
        Err(OmError::ShapeMismatch)
    ));
    assert!(matches!(
        VariableNode::new(Some("v"), vec![4, 4], vec![2, 5]),
        Err(OmError::ShapeMismatch)
    ));
    assert!(VariableNode::new(Some("v"), vec![4, 4], vec![2, 4]).is_ok());
}

#[test]
fn listing_is_preorder_with_paths() {
    let mut tree = VariableTree::new(node(None, vec![2]));
    let a = tree.add_child(0, node(Some("a"), vec![1]));
    tree.add_child(a, node(None, vec![1]));
    tree.add_child(0, node(None, vec![1]));
    let listing = tree.listing();
    assert_eq!(names(&tree), vec!["", "a", "a/child_0", "child_1"]);
    let depths: Vec<usize> = listing.iter().map(|e| e.depth).collect();
    assert_eq!(depths, vec![0, 1, 2, 1]);
    let nodes: Vec<usize> = listing.iter().map(|e| e.node).collect();
    assert_eq!(nodes, vec![0, 1, 2, 3]);
}

#[test]
fn listing_labels_many_digit_positions() {
    let mut tree = VariableTree::new(node(Some("r"), vec![1]));
    for _ in 0..12 {
        tree.add_child(0, node(None, vec![1]));
    }
    let all = names(&tree);
    assert_eq!(all[11], "child_10");
    assert_eq!(all[12], "child_11");
    assert_eq!(tree.resolve("child_11"), Ok(12));
}

#[test]
fn listing_text_of_extents_names_and_chunks() {
    let s = |v: Vec<char>| v.into_iter().collect::<String>();
    assert_eq!(s(extents_label(&vec![721, 1440, 24])), "721 × 1440 × 24");
    assert_eq!(s(extents_label(&vec![5])), "5");
    assert_eq!(s(extents_label(&vec![])), "");
    assert_eq!(s(chunks_label(&vec![])), "none");
    assert_eq!(s(chunks_label(&vec![1, 10])), "1 × 10");
    assert_eq!(s(name_label(&None)), "unnamed");
    assert_eq!(s(name_label(&Some(vec!['t', '2']))), "t2");
}
