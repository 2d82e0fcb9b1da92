use toolkit::graph::Graph;
use toolkit::tree::{NodeIdGenerator, Tree, TreeBase, TreeNodeBuilder};
use toolkit::util::IDGen;

#[test]
fn social_network() {
    let mut social_network: Graph<String> = Graph::new();

    let john = social_network.add_node("John Stalberg".into()).unwrap();
    let mary = social_network.add_node("Mary Poppins".into()).unwrap();
    social_network.add_dual_edge(john, mary);

    let johns_friends = social_network.connected_nodes(john);

    let mut johns_friends_names = vec![];

    if let Some(friends) = johns_friends {
        friends.iter().for_each(|id| {
            let name = social_network.get(*id).unwrap();
            johns_friends_names.push(name.clone());
        });
    }

    assert_eq!(johns_friends_names, [String::from("Mary Poppins")]);
}

#[test]
fn tree() {
    let (mut tree, root_node) = Tree::new(0);

    let node_0 = tree.insert(root_node, 1).unwrap();

    let _node_1 = tree.insert(node_0, 2).unwrap();

    let _node_2 = tree.insert(root_node, 3).unwrap();

    let children = tree.get_node_children_ids(root_node).unwrap();

    for child_id in children {
        let value = tree.get_node_value(*child_id).unwrap();

        println!("Id: {}\nValue: {}\n\n", child_id, value);
    }
}

#[test]
fn tree_numbers_and_children() {
    let (mut tree, root) = Tree::new("root");
    assert_eq!(root, 0);
    assert_eq!(tree.get_root_node_id(), 0);
    let a = tree.insert(root, "a").unwrap();
    let b = tree.insert(a, "b").unwrap();
    let c = tree.insert(root, "c").unwrap();
    assert_eq!((a, b, c), (1, 2, 3));
    assert_eq!(tree.get_node_children_ids(root).unwrap(), &[1, 3]);
    assert_eq!(tree.get_node_children_ids(a).unwrap(), &[2]);
    assert_eq!(tree.get_node_children_ids(b).unwrap(), &[] as &[usize]);
    assert_eq!(tree.insert(9, "x"), None);
    assert_eq!(tree.get_node_value(9), None);
    *tree.get_node_value_mut(c).unwrap() = "changed";
    assert_eq!(tree.get_node_value(c), Some(&"changed"));
}

#[test]
fn tree_through_trait() {
    fn add_two<B: TreeBase<u32>>(t: &mut B) -> Option<usize> {
        let root = t.get_root_node_id();
        t.insert(root, 7)?;
        t.insert(root, 8)
    }
    let (mut tree, _) = Tree::new(1u32);
    assert_eq!(add_two(&mut tree), Some(2));
    assert_eq!(TreeBase::get_node_children_ids(&tree, 0).unwrap(), &[1, 2]);
}

#[test]
fn tree_node_builder_needs_an_id() {
    let mut b = TreeNodeBuilder::new();
    assert!(b.build(5).is_none());
    let node = b.node_id(4).parent_id(Some(1)).build(5).unwrap();
    assert_eq!(node.node_id, 4);
    assert_eq!(node.parent_id, Some(1));
    assert_eq!(node.value, 5);
    assert!(node.children_ids.is_empty());
}

#[test]
fn node_id_generator_reuses_returned() {
    let mut g = NodeIdGenerator::new();
    assert_eq!(g.get_id(), Some(0));
    assert_eq!(g.get_id(), Some(1));
    assert_eq!(g.get_id(), Some(2));
    g.return_id(1);
    g.return_id(1);
    g.return_id(0);
    g.return_id(7);
    assert_eq!(g.get_id(), Some(1));
    assert_eq!(g.get_id(), Some(0));
    assert_eq!(g.get_id(), Some(3));
}

#[test]
fn id_gen_reuse_and_reset() {
    let mut g = IDGen::new();
    assert_eq!(g.get_id(), Ok(0));
    assert_eq!(g.get_id(), Ok(1));
    g.return_id(0);
    g.return_id(0);
    g.return_id(5);
    assert_eq!(g.get_id(), Ok(0));
    assert_eq!(g.get_id(), Ok(2));
    g.reset();
    assert_eq!(g.get_id(), Ok(0));
}

#[test]
fn graph_edges_and_removal() {
    let mut g: Graph<u32> = Graph::default();
    let a = g.add_node(10).unwrap();
    let b = g.add_node(20).unwrap();
    let c = g.add_node(30).unwrap();
    g.add_edge(a, b);
    g.add_edge(a, c);
    g.add_edge(c, a);
    assert!(g.is_connected(a, b));
    assert!(!g.is_connected(b, a));
    assert_eq!(g.connected_nodes(a), Some(vec![1, 2]));
    g.remove_edge(a, b);
    assert_eq!(g.connected_nodes(a), Some(vec![2]));
    g.add_dual_edge(b, c);
    assert!(g.is_connected(b, c) && g.is_connected(c, b));
    g.remove_dual_edge(b, c);
    assert!(!g.is_connected(b, c) && !g.is_connected(c, b));

    g.remove_node(c);
    assert_eq!(g.get(c), None);
    assert_eq!(g.connected_nodes(c), None);
    assert_eq!(g.connected_nodes(a), Some(vec![]));
    assert!(!g.is_connected(c, a));

    // the freed slot is reused, without its old edges
    let d = g.add_node(40).unwrap();
    assert_eq!(d, c);
    assert_eq!(g.get(d), Some(&40));
    assert!(!g.is_connected(d, a));
    assert_eq!(g.add_node(50).unwrap(), 3);

    *g.get_mut(a).unwrap() += 1;
    assert_eq!(g.get(a), Some(&11));
    assert!(g.get_mut(99).is_none());

    // edges to missing nodes are ignored
    g.add_edge(a, 99);
    assert_eq!(g.connected_nodes(a), Some(vec![]));
}
