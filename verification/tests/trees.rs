use wildbits::tree::{tree_merge, Kind, Node, Tree};

fn leaf(name: &str) -> Node {
    Node { name: name.to_string(), subtree: Tree::new(), kind: Kind::Object }
}

fn dir(name: &str, nodes: Vec<Node>) -> Node {
    Node { name: name.to_string(), subtree: Tree { nodes }, kind: Kind::Object }
}

fn paths(tree: &Tree) -> Vec<Vec<String>> {
    let mut all = Vec::new();
    for node in &tree.nodes {
        all.push(vec![node.name.clone()]);
        for mut below in paths(&node.subtree) {
            below.insert(0, node.name.clone());
            all.push(below);
        }
    }
    all.sort();
    all
}

#[test]
fn merge_shows_what_either_tree_shows() {
    let mut left = Tree { nodes: vec![dir("Actor", vec![leaf("Link"), dir("Pack", vec![leaf("a")])]), leaf("top")] };
    let right = Tree { nodes: vec![dir("Actor", vec![leaf("Zelda"), dir("Pack", vec![leaf("b")])]), leaf("other")] };
    let mut expected = paths(&left);
    expected.extend(paths(&right));
    expected.sort();
    expected.dedup();
    tree_merge(&mut left, &right);
    assert_eq!(paths(&left), expected);
    // shared names are not doubled
    assert_eq!(left.nodes.iter().filter(|n| n.name == "Actor").count(), 1);
    assert_eq!(left.nodes.len(), 3);
    // old nodes keep their places, new ones follow
    assert_eq!(left.nodes[0].name, "Actor");
    assert_eq!(left.nodes[1].name, "top");
    assert_eq!(left.nodes[2].name, "other");
}

#[test]
fn merge_with_empty_trees() {
    let mut tree = Tree::new();
    tree_merge(&mut tree, &Tree::new());
    assert_eq!(tree.nodes.len(), 0);
    let other = Tree { nodes: vec![dir("a", vec![leaf("b")])] };
    tree_merge(&mut tree, &other);
    assert_eq!(paths(&tree), paths(&other));
    let before = paths(&tree);
    tree_merge(&mut tree, &Tree::new());
    assert_eq!(paths(&tree), before);
    tree_merge(&mut tree, &other);
    assert_eq!(paths(&tree), before);
}

#[test]
fn chain_and_copy() {
    let parts = vec!["a".to_string(), "b".to_string(), "c".to_string()];
    let tree = Tree::chain(&parts, Tree { nodes: vec![leaf("x")] });
    assert_eq!(
        paths(&tree),
        vec![
            vec!["a".to_string()],
            vec!["a".to_string(), "b".to_string()],
            vec!["a".to_string(), "b".to_string(), "c".to_string()],
            vec!["a".to_string(), "b".to_string(), "c".to_string(), "x".to_string()],
        ]
    );
    assert_eq!(paths(&tree.copy()), paths(&tree));
    assert_eq!(tree.position(&"a".to_string()), Some(0));
    assert_eq!(tree.position(&"b".to_string()), None);
    assert_eq!(Tree::chain(&vec![], Tree::new()).nodes.len(), 0);
}

fn list(name: &str, values: &[&str]) -> Node {
    Node {
        name: name.to_string(),
        subtree: Tree::new(),
        kind: Kind::Array(values.iter().map(|v| v.to_string()).collect()),
    }
}

fn other(name: &str, value: &str) -> Node {
    Node { name: name.to_string(), subtree: Tree::new(), kind: Kind::Other(value.to_string()) }
}

/// A tree written out: names in order, each with what stands under it.
fn written(tree: &Tree) -> String {
    let parts: Vec<String> = tree
        .nodes
        .iter()
        .map(|n| match &n.kind {
            Kind::Object => format!("{}:{}", n.name, written(&n.subtree)),
            Kind::Array(values) => format!("{}:[{}]", n.name, values.join(",")),
            Kind::Other(value) => format!("{}:{}", n.name, value),
        })
        .collect();
    format!("{{{}}}", parts.join(" "))
}

#[test]
fn lists_are_joined_old_values_first() {
    let mut dict = Tree { nodes: vec![list("k", &["1", "2"])] };
    tree_merge(&mut dict, &Tree { nodes: vec![list("k", &["3"])] });
    assert_eq!(written(&dict), "{k:[1,2,3]}");
    tree_merge(&mut dict, &Tree { nodes: vec![list("k", &[])] });
    assert_eq!(written(&dict), "{k:[1,2,3]}");
}

#[test]
fn a_value_of_another_kind_takes_the_place() {
    let mut dict = Tree { nodes: vec![dir("k", vec![leaf("x")]), other("j", "1")] };
    tree_merge(&mut dict, &Tree { nodes: vec![list("k", &["7"])] });
    assert_eq!(written(&dict), "{k:[7] j:1}");
    // a tree of names takes the place of a list, and a value that of a value
    tree_merge(&mut dict, &Tree { nodes: vec![dir("k", vec![leaf("y")]), other("j", "2")] });
    assert_eq!(written(&dict), "{k:{y:{}} j:2}");
    // a list does not join a value
    tree_merge(&mut dict, &Tree { nodes: vec![list("j", &["3"])] });
    assert_eq!(written(&dict), "{k:{y:{}} j:[3]}");
}

#[test]
fn merge_goes_name_by_name() {
    let mut dict = Tree {
        nodes: vec![
            dir("a", vec![list("l", &["1"]), other("v", "old"), leaf("f")]),
            other("keep", "0"),
        ],
    };
    let more = Tree {
        nodes: vec![
            other("new", "9"),
            dir("a", vec![list("l", &["2"]), other("v", "new"), dir("f", vec![leaf("g")]), leaf("h")]),
        ],
    };
    tree_merge(&mut dict, &more);
    assert_eq!(written(&dict), "{a:{l:[1,2] v:new f:{g:{}} h:{}} keep:0 new:9}");
    // merging nothing changes nothing
    let before = written(&dict);
    tree_merge(&mut dict, &Tree::new());
    assert_eq!(written(&dict), before);
    // the tree that is merged in is left as it was
    assert_eq!(written(&more), "{new:9 a:{l:[2] v:new f:{g:{}} h:{}}}");
}
