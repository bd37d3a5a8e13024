use std::collections::HashSet;

use stapifaction::{persist, Child, Entity, ExpandStrategy, PathElement, ResolvablePath, Write};

fn path(elements: Vec<PathElement>) -> ResolvablePath {
    let mut p = ResolvablePath::default();
    for e in elements {
        p = p.append(e);
    }
    p
}

fn entity(
    elements: Vec<PathElement>,
    serializable: Option<usize>,
    children: Vec<(&str, Child)>,
) -> Entity {
    Entity {
        path: path(elements),
        expand_strategy: None,
        serializable,
        children: children.into_iter().map(|(n, c)| (n.to_string(), c)).collect(),
    }
}

fn id(s: &str) -> PathElement {
    PathElement::Id(s.to_string())
}

fn named(s: &str) -> PathElement {
    PathElement::Path(s.to_string())
}

fn assert_paths(writes: &[Write], expected: &[&str]) {
    let mut seen = HashSet::new();
    for w in writes {
        assert!(seen.insert(w.path.clone()), "The path '{}' has been added twice", w.path);
    }
    let expected: HashSet<String> = expected.iter().map(|s| s.to_string()).collect();
    assert_eq!(seen, expected);
}

fn user_with_address() -> Child {
    let address = entity(vec![], Some(1), vec![]);
    Child::entity(entity(
        vec![named("users"), id("1")],
        Some(0),
        vec![("address", Child::entity(address))],
    ))
}

#[test]
fn basic_test_basic() {
    let user = Child::entity(entity(vec![named("users"), id("1")], Some(0), vec![]));
    let writes = persist(ResolvablePath::from("./"), &user, None, None);
    assert_paths(&writes, &["./users/1"]);
}

#[test]
fn test_subset_in_same_folder() {
    let writes = persist(ResolvablePath::from("./"), &user_with_address(), None, None);
    assert_paths(&writes, &["./users/1/data", "./users/1/address"]);
}

#[test]
fn test_subset_in_separate_folders() {
    let writes = persist(
        ResolvablePath::from("./"),
        &user_with_address(),
        Some(ExpandStrategy::SeparateFolders(String::from("index"))),
        None,
    );
    assert_paths(&writes, &["./users/1/index", "./users/1/address/index"]);
}

#[test]
fn test_basic() {
    let user = Child::entity(entity(vec![], Some(0), vec![]));
    let writes = persist(ResolvablePath::from("./"), &user, None, Some("json"));
    assert_paths(&writes, &["./data.json"]);
}

#[test]
fn test_basic_with_id() {
    let order = Child::entity(entity(vec![id("1")], Some(0), vec![]));
    let writes = persist(ResolvablePath::from("./"), &order, None, Some("json"));
    assert_paths(&writes, &["./1.json"]);
}

fn product() -> Child {
    let factories = Child::collection(vec![
        entity(vec![id("10")], Some(1), vec![]),
        entity(vec![id("20")], Some(2), vec![]),
        entity(vec![id("30")], Some(3), vec![]),
    ]);
    let orders = Child::collection(vec![
        entity(vec![id("ZGFS")], Some(4), vec![]),
        entity(vec![id("OJGD")], Some(5), vec![]),
    ]);
    Child::entity(entity(
        vec![named("products"), id("1")],
        Some(0),
        vec![("factories", factories), ("orders", orders)],
    ))
}

#[test]
fn test_collection() {
    let writes = persist(ResolvablePath::from("./"), &product(), None, Some("json"));
    assert_paths(
        &writes,
        &[
            "./products/1/data.json",
            "./products/1/factories/10.json",
            "./products/1/factories/20.json",
            "./products/1/factories/30.json",
            "./products/1/orders/ZGFS.json",
            "./products/1/orders/OJGD.json",
        ],
    );
}

#[test]
fn readme_product_with_orders() {
    let orders = Child::collection(vec![
        entity(vec![id("ZGFS")], Some(1), vec![]),
        entity(vec![id("OJGD")], Some(2), vec![]),
    ]);
    let product = Child::entity(entity(
        vec![named("products"), id("1")],
        Some(0),
        vec![("orders", orders)],
    ));
    let writes = persist(ResolvablePath::from("./"), &product, None, Some("json"));
    assert_paths(
        &writes,
        &["./products/1/data.json", "./products/1/orders/ZGFS.json", "./products/1/orders/OJGD.json"],
    );
}

#[test]
fn writes_in_pre_order_with_handles() {
    let writes = persist(ResolvablePath::from("./"), &product(), None, Some("json"));
    let handles: Vec<usize> = writes.iter().map(|w| w.serializable).collect();
    assert_eq!(handles, vec![0, 1, 2, 3, 4, 5]);
    assert_eq!(writes[0].path, "./products/1/data.json");
    assert_eq!(writes[1].path, "./products/1/factories/10.json");
}

#[test]
fn collection_items_without_id_are_named_by_index() {
    let items: Vec<Entity> = (0..12).map(|i| entity(vec![named("item")], Some(i), vec![])).collect();
    let collection = Child::collection(items);
    assert_eq!(collection.child_name(0), "0");
    assert_eq!(collection.child_name(11), "11");
    let writes = persist(ResolvablePath::from("out"), &collection, None, None);
    assert_eq!(writes.len(), 12);
    assert_eq!(writes[0].path, "out/0/item");
    assert_eq!(writes[11].path, "out/11/item");
}

#[test]
fn collection_items_with_id_are_not_qualified() {
    let collection = Child::collection(vec![entity(vec![id("a")], Some(0), vec![])]);
    assert_eq!(collection.child_name(0), "");
    let writes = persist(ResolvablePath::from("out"), &collection, None, None);
    assert_eq!(writes[0].path, "out/a");
}

#[test]
fn collection_items_without_path_are_named_by_index() {
    let users = Child::collection(vec![
        entity(vec![], Some(0), vec![]),
        entity(vec![], Some(1), vec![]),
        entity(vec![], Some(2), vec![]),
    ]);
    let names: Vec<String> = users.children().into_iter().map(|(n, _)| n).collect();
    assert_eq!(names, vec!["0", "1", "2"]);
    let writes = persist(ResolvablePath::from("./"), &users, None, Some("json"));
    assert_paths(&writes, &["./0.json", "./1.json", "./2.json"]);
}

#[test]
fn children_of_a_collection_look_at_immediate_items_only() {
    let nested = Child::collection(vec![entity(vec![], None, vec![])]);
    let outer = Child::collection(vec![entity(vec![id("a")], None, vec![("n", nested)])]);
    let children = outer.children();
    assert_eq!(children.len(), 1);
    assert_eq!(children[0].0, "");
}

#[test]
fn entity_without_serializable_writes_only_its_children() {
    let child = entity(vec![], Some(7), vec![]);
    let parent = Child::entity(entity(vec![named("p")], None, vec![("c", Child::entity(child))]));
    let writes = persist(ResolvablePath::default(), &parent, None, Some("json"));
    assert_eq!(writes.len(), 1);
    assert_eq!(writes[0].path, "p/c.json");
    assert_eq!(writes[0].serializable, 7);
}

#[test]
fn child_strategy_wins_over_inherited() {
    let mut child = entity(vec![], Some(1), vec![]);
    child.expand_strategy = Some(ExpandStrategy::SeparateFolders(String::from("own")));
    let parent = Child::entity(entity(vec![named("p")], Some(0), vec![("c", Child::entity(child))]));
    let writes = persist(
        ResolvablePath::default(),
        &parent,
        Some(ExpandStrategy::SeparateFolders(String::from("given"))),
        None,
    );
    assert_eq!(writes[0].path, "p/given");
    assert_eq!(writes[1].path, "p/c/own");
}

#[test]
fn given_strategy_wins_over_own() {
    let mut e = entity(vec![named("p")], Some(0), vec![]);
    e.expand_strategy = Some(ExpandStrategy::SeparateFolders(String::from("own")));
    let writes = persist(
        ResolvablePath::default(),
        &Child::entity(e),
        Some(ExpandStrategy::SeparateFolders(String::from("given"))),
        None,
    );
    assert_eq!(writes[0].path, "p/given");
}

#[test]
fn every_file_has_the_extension() {
    let writes = persist(ResolvablePath::from("./"), &product(), None, Some("yaml"));
    assert_eq!(writes.len(), 6);
    for w in &writes {
        assert!(w.path.ends_with(".yaml"));
    }
}

#[test]
fn every_file_is_under_the_base() {
    let writes = persist(ResolvablePath::from("./out"), &product(), None, Some("json"));
    for w in &writes {
        assert!(w.path.starts_with("./out"), "{}", w.path);
    }
}

#[test]
fn an_absolute_id_escapes_the_base() {
    let order = Child::entity(entity(vec![id("/etc")], Some(0), vec![]));
    let writes = persist(ResolvablePath::from("./out"), &order, None, None);
    assert_eq!(writes[0].path, "/etc");
}
