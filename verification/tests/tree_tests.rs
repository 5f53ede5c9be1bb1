use bombadil::tree::Tree::{Branch, Leaf};

#[test]
fn test_prune_non_empty() {
    let actual = Branch(vec![
        (Leaf(1)),
        (Branch(vec![(Leaf(2)), (Leaf(3)), (Branch(vec![]))])),
        (Branch(vec![])),
    ])
    .prune()
    .unwrap();
    let expected = Branch(vec![(Leaf(1)), (Branch(vec![(Leaf(2)), (Leaf(3))]))]);
    assert_eq!(actual, expected);
}

#[test]
fn test_prune_empty() {
    let actual = Branch::<()>(vec![]).prune();
    assert_eq!(actual, None);
}

#[test]
fn test_prune_keeps_deep_leaf() {
    let actual = Branch(vec![
        Branch(vec![Branch(vec![])]),
        Branch(vec![Branch(vec![Leaf(7)])]),
    ])
    .prune()
    .unwrap();
    let expected = Branch(vec![Branch(vec![Branch(vec![Leaf(7)])])]);
    assert_eq!(actual, expected);
}

#[test]
fn test_prune_leaf_is_kept() {
    assert_eq!(Leaf(42).prune(), Some(Leaf(42)));
}

#[test]
fn test_map_keeps_shape_and_maps_leaves() {
    let tree = Branch(vec![Leaf(1), Branch(vec![Leaf(2), Leaf(3)])]);
    let doubled = tree.map(&|x: &i32| x * 2);
    assert_eq!(doubled, Branch(vec![Leaf(2), Branch(vec![Leaf(4), Leaf(6)])]));
}
