use mycoforge::syntax_tree::{Node, Order, SyntaxTree};

fn build_tree(labels: &[&str], children: &[Option<Vec<usize>>]) -> SyntaxTree<f32> {
    let mut tree: SyntaxTree<f32> = SyntaxTree::new();
    for (label, child_list) in labels.iter().zip(children.iter()) {
        let node: Node<f32> = Node::new(label.to_string(), 0.0);
        tree.insert(node, child_list.clone());
    }
    tree
}

fn check_traversals(tree: &SyntaxTree<f32>, truths: &(Vec<usize>, Vec<usize>, Vec<usize>)) {
    assert_eq!(truths.0, tree.dfs(0, Order::Prefix).unwrap(), "the prefix traversal failed");
    assert_eq!(truths.1, tree.dfs(0, Order::Postfix).unwrap(), "the postfix traversal failed");
    assert_eq!(truths.2, tree.dfs(0, Order::Infix).unwrap(), "the infix traversal failed");
}

#[test]
fn syntax_tree_test1() {
    let cases: Vec<(Vec<&str>, Vec<Option<Vec<usize>>>)> = vec![
        (vec!["+", "x", "3.0"], vec![Some(vec![1, 2]), None, None]),
        (vec!["ln", "x"], vec![Some(vec![1]), None]),
        (
            vec!["*", "+", "x", "y", "/", "z", "sin", "pi"],
            vec![
                Some(vec![1, 4]),
                Some(vec![2, 3]),
                None,
                None,
                Some(vec![5, 6]),
                None,
                Some(vec![7]),
                None,
            ],
        ),
    ];

    let truths: Vec<(Vec<usize>, Vec<usize>, Vec<usize>)> = vec![
        (vec![0, 1, 2], vec![1, 2, 0], vec![1, 0, 2]),
        (vec![0, 1], vec![1, 0], vec![1, 0]),
        (
            vec![0, 1, 2, 3, 4, 5, 6, 7],
            vec![1, 2, 3, 4, 5, 6, 7, 0],
            vec![2, 1, 3, 0, 5, 4, 7, 6],
        ),
    ];

    for (case, truth) in cases.iter().zip(truths.iter()) {
        let tree = build_tree(&case.0, &case.1);
        check_traversals(&tree, truth);
    }
}

#[test]
fn main_test1() {
    // the same traversal cases, driven through the breadth-first walk too
    let tree = build_tree(
        &["*", "+", "x", "y", "/", "z", "sin", "pi"],
        &[
            Some(vec![1, 4]),
            Some(vec![2, 3]),
            None,
            None,
            Some(vec![5, 6]),
            None,
            Some(vec![7]),
            None,
        ],
    );
    assert_eq!(tree.bfs(0).unwrap(), vec![0, 1, 4, 2, 3, 5, 6, 7]);
    assert_eq!(tree.dfs(0, Order::Prefix).unwrap(), vec![0, 1, 2, 3, 4, 5, 6, 7]);
}

#[test]
fn test_syntax_tree_basics() {
    let mut tree = build_tree(&["+", "x", "y"], &[Some(vec![1, 2]), None, None]);
    assert!(!tree.is_empty());
    assert_eq!(tree.size(), 3);
    assert!(tree.root().is_some());
    assert!(tree.is_leaf(0), "an indexed node reports a recorded child list");
    assert!(!tree.is_leaf(1));
    assert_eq!(tree.children(0), &vec![1, 2]);
    assert_eq!(tree.parent(0), None);
    assert!(tree.dfs(9, Order::Prefix).is_none());
    tree.clear();
    assert!(tree.is_empty());
    assert_eq!(tree.size(), 0);
}

#[test]
fn test_syntax_tree_delete() {
    let mut tree = build_tree(&["+", "x", "y"], &[Some(vec![1, 2]), None, None]);
    tree.delete(0);
    assert_eq!(tree.size(), 2);
}
