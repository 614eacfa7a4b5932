use codetags::location::{Location, LocationKind, LocationNode};

fn node(kind: LocationKind, name: &str) -> LocationNode {
    LocationNode { kind, name: name.to_string(), is_function_declaration: false }
}

fn chain(nodes: Vec<LocationNode>) -> Location {
    Location { nodes }
}

fn method_in_class() -> Location {
    chain(vec![
        node(LocationKind::File, "Scanner.java"),
        node(LocationKind::Class, "Scanner"),
        node(LocationKind::Method, "scanTokens"),
    ])
}

fn kinds(location: &Location) -> Vec<LocationKind> {
    location.nodes.iter().map(|n| n.kind).collect()
}

#[test]
fn the_location_of_a_file_has_one_node() {
    let file = Location::file("Lox.java".to_string());
    assert_eq!(file.depth(), 1);
    assert!(file.is_file());
    assert!(!file.is_function());
    assert_eq!(file.nodes[0].name, "Lox.java");
    assert!(!file.nodes[0].is_function_declaration);
}

#[test]
fn depth_counts_the_nodes() {
    assert_eq!(method_in_class().depth(), 3);
    assert_eq!(chain(vec![]).depth(), 0);
}

#[test]
fn a_child_lies_one_level_deeper() {
    let file = Location::file("Lox.java".to_string());
    let class = file.child(node(LocationKind::Class, "Lox"));
    assert_eq!(class.depth(), 2);
    assert_eq!(kinds(&class), vec![LocationKind::File, LocationKind::Class]);
    assert_eq!(class.nodes[1].name, "Lox");
    assert_eq!(file.depth(), 1);
}

#[test]
fn the_parent_lies_one_level_higher() {
    let method = method_in_class();
    let class = method.parent();
    assert_eq!(kinds(&class), vec![LocationKind::File, LocationKind::Class]);
    let file = class.parent();
    assert_eq!(kinds(&file), vec![LocationKind::File]);
    assert_eq!(kinds(&file.parent()), vec![LocationKind::File]);
    assert_eq!(chain(vec![]).parent().depth(), 0);
}

#[test]
fn the_kind_of_the_innermost_node_decides() {
    assert!(method_in_class().is_function());
    assert!(!method_in_class().is_file());
    assert!(chain(vec![node(LocationKind::File, "f"), node(LocationKind::Constructor, "C")])
        .is_function());
    assert!(chain(vec![node(LocationKind::Function, "f")]).is_function());
    assert!(!chain(vec![node(LocationKind::File, "f"), node(LocationKind::Class, "C")])
        .is_function());
    assert!(!chain(vec![node(LocationKind::Variable, "v")]).is_function());
    assert!(!chain(vec![]).is_function());
    assert!(!chain(vec![]).is_file());
}

#[test]
fn pop_to_depth_keeps_the_outermost_nodes() {
    let method = method_in_class();
    assert_eq!(kinds(&method.pop_to_depth(0)), vec![LocationKind::File]);
    assert_eq!(kinds(&method.pop_to_depth(1)), vec![LocationKind::File, LocationKind::Class]);
    assert_eq!(method.pop_to_depth(1).nodes[1].name, "Scanner");
    assert_eq!(method.pop_to_depth(2).depth(), 3);
}

#[test]
fn pop_to_depth_leaves_a_shallow_location_alone() {
    let method = method_in_class();
    for depth in [2, 3, 4, 100, usize::MAX] {
        assert!(method.pop_to_depth(depth).same_as(&method));
    }
    assert_eq!(chain(vec![]).pop_to_depth(0).depth(), 0);
}

#[test]
fn pop_to_depth_twice_is_pop_to_depth_once() {
    let method = method_in_class();
    for depth in [0, 1, 2, 3, 7] {
        let once = method.pop_to_depth(depth);
        let twice = once.pop_to_depth(depth);
        assert!(twice.same_as(&once));
    }
}

#[test]
fn locations_are_the_same_when_all_their_nodes_are() {
    let method = method_in_class();
    assert!(method.same_as(&method_in_class()));
    assert!(!method.same_as(&method.parent()));
    assert!(!method.parent().same_as(&method));
    let mut other = method_in_class();
    other.nodes[1].name = "Parser".to_string();
    assert!(!method.same_as(&other));
    let mut declared = method_in_class();
    declared.nodes[2].is_function_declaration = true;
    assert!(!method.same_as(&declared));
    let mut constructor = method_in_class();
    constructor.nodes[2].kind = LocationKind::Constructor;
    assert!(!method.same_as(&constructor));
    assert!(chain(vec![]).same_as(&chain(vec![])));
}

#[test]
fn a_prefix_is_compared_with_a_whole_location() {
    let method = method_in_class();
    assert!(method.prefix_is(2, &method.parent()));
    assert!(method.prefix_is(3, &method));
    assert!(!method.prefix_is(2, &method));
    assert!(!method.prefix_is(1, &method.parent()));
    assert!(method.prefix_is(0, &chain(vec![])));
}

#[test]
fn a_copy_has_the_same_nodes() {
    let method = method_in_class();
    let copy = method.clone();
    assert!(copy.same_as(&method));
    assert!(node(LocationKind::Enum, "E").clone().same_as(&node(LocationKind::Enum, "E")));
    assert!(!node(LocationKind::Enum, "E").same_as(&node(LocationKind::Enum, "F")));
}
