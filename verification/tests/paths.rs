use stapifaction::{ExpandStrategy, JsonPersister, PathElement, PathStyle, ResolvablePath, push_path};

fn path(elements: Vec<PathElement>) -> ResolvablePath {
    let mut p = ResolvablePath::default();
    for e in elements {
        p = p.append(e);
    }
    p
}

fn named(s: &str) -> PathElement {
    PathElement::Path(s.to_string())
}

fn id(s: &str) -> PathElement {
    PathElement::Id(s.to_string())
}

fn qualifier(s: &str) -> PathElement {
    PathElement::ChildQualifier(s.to_string())
}

#[test]
fn push_adds_a_separator_when_needed() {
    let mut p = String::from("a");
    push_path(&mut p, "b");
    assert_eq!(p, "a/b");
    push_path(&mut p, "");
    assert_eq!(p, "a/b/");
    push_path(&mut p, "c");
    assert_eq!(p, "a/b/c");
    let mut empty = String::new();
    push_path(&mut empty, "x");
    assert_eq!(empty, "x");
}

#[test]
fn push_absolute_replaces() {
    let mut p = String::from("a/b");
    push_path(&mut p, "/etc");
    assert_eq!(p, "/etc");
}

#[test]
fn push_is_associative_on_examples() {
    for (a, b, c) in [("a", "", "c"), ("", "b", "/c"), ("a/", "b", ""), ("a", "/b", "c")] {
        let mut left = String::from(a);
        push_path(&mut left, b);
        push_path(&mut left, c);
        let mut bc = String::from(b);
        push_path(&mut bc, c);
        let mut right = String::from(a);
        push_path(&mut right, &bc);
        assert_eq!(left, right);
    }
}

#[test]
fn to_path_joins_elements() {
    let p = path(vec![named("./"), named("users"), id("1")]);
    assert_eq!(p.to_path(), "./users/1");
    assert_eq!(ResolvablePath::default().to_path(), "");
}

#[test]
fn append_count_last_and_id() {
    let p = path(vec![named("users")]);
    assert_eq!(p.count(), 1);
    assert!(!p.has_id());
    let p = p.append(id("1"));
    assert_eq!(p.count(), 2);
    assert!(p.has_id());
    assert!(matches!(p.last(), PathElement::Id(s) if s == "1"));
}

#[test]
fn append_all_concatenates() {
    let p = path(vec![named("a"), id("b")]).append_all(path(vec![qualifier("c"), named("d")]));
    assert_eq!(p.count(), 4);
    assert_eq!(p.to_path(), "a/b/c/d");
    assert!(matches!(p.last(), PathElement::Path(s) if s == "d"));
}

#[test]
fn merge_keeps_the_path() {
    let p = path(vec![named("./"), named("users"), id("1")]);
    let merged = p.merge();
    assert_eq!(merged.count(), 1);
    assert_eq!(merged.to_path(), p.to_path());
    assert!(matches!(merged.last(), PathElement::Path(s) if s == "./users/1"));
}

#[test]
fn from_str_is_one_path_element() {
    let p = ResolvablePath::from("./out");
    assert_eq!(p.count(), 1);
    assert!(matches!(p.last(), PathElement::Path(s) if s == "./out"));
}

#[test]
fn path_element_into_string() {
    assert_eq!(String::from(id("7")), "7");
    assert_eq!(String::from(qualifier("q")), "q");
    assert_eq!(named("n").as_str(), "n");
}

#[test]
fn separate_folders_always_adds_the_name() {
    let s = ExpandStrategy::SeparateFolders(String::from("index"));
    assert_eq!(s.resolve_path(&path(vec![named("./"), id("1")]), 0), "./1/index");
    assert_eq!(s.resolve_path(&path(vec![named("./")]), 3), "./index");
}

#[test]
fn unique_folder_uses_the_path_when_leaf_or_qualified() {
    let s = ExpandStrategy::UniqueFolder(String::from("data"));
    let leaf = path(vec![named("./"), id("1")]);
    assert_eq!(s.resolve_path(&leaf, 0), "./1");
    assert_eq!(s.resolve_path(&leaf, 2), "./1/data");
    let qualified = path(vec![named("./"), qualifier("address")]);
    assert_eq!(s.resolve_path(&qualified, 2), "./address");
    let single = path(vec![named("./")]);
    assert_eq!(s.resolve_path(&single, 0), "./data");
}

#[test]
fn default_strategy_is_one_folder_named_data() {
    assert_eq!(ExpandStrategy::default(), ExpandStrategy::UniqueFolder(String::from("data")));
    assert_eq!(PathStyle::default(), PathStyle::DifferentFileNameInSameFolder(String::from("data")));
}

#[test]
fn path_style_constructors() {
    assert_eq!(PathStyle::as_folders("index"), PathStyle::SameFileNameInSeparateFolders(String::from("index")));
    assert_eq!(PathStyle::as_files("order"), PathStyle::DifferentFileNameInSameFolder(String::from("order")));
    assert_eq!(PathStyle::from("orders"), PathStyle::as_files("orders"));
    assert_eq!(PathStyle::from(String::from("x")), PathStyle::as_files("x"));
    assert_ne!(PathStyle::as_files("x"), PathStyle::as_folders("x"));
}

#[test]
fn path_style_docs_folders_and_files() {
    let entity = path(vec![named("./")]);
    let field = path(vec![named("./"), qualifier("address")]);
    let folders = PathStyle::as_folders("index");
    assert_eq!(folders.resolve_path(&entity, 1), "./index");
    assert_eq!(folders.resolve_path(&field, 0), "./address/index");
    let files = PathStyle::as_files("order");
    assert_eq!(files.resolve_path(&entity, 1), "./order");
    assert_eq!(files.resolve_path(&path(vec![named("./"), qualifier("factory")]), 0), "./factory");
}

#[test]
fn path_style_resolves_as_its_strategy() {
    let elements = path(vec![named("a"), qualifier("b")]);
    for style in [PathStyle::as_files("f"), PathStyle::as_folders("f")] {
        for count in [0, 1] {
            let strategy = ExpandStrategy::from(style.clone());
            assert_eq!(style.resolve_path(&elements, count), strategy.resolve_path(&elements, count));
        }
    }
    assert_eq!(ExpandStrategy::from(PathStyle::as_folders("i")), ExpandStrategy::SeparateFolders(String::from("i")));
}

#[test]
fn json_extension() {
    assert_eq!(JsonPersister.extension(), "json");
}
