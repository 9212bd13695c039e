use star_router::{Method, Path, Tree, TreeError};

fn path(p: &str) -> Path {
    Path::parse(Method::Get, p).unwrap()
}

#[test]
fn test_tree_happy_path() {
    let root_item: u64 = 101;
    let post_root_item: u64 = 102;
    let param_item: u64 = 103;
    let param_static_item: u64 = 104;
    let wildcard_item: u64 = 105;
    let param_overlap_static_item: u64 = 106;
    let wildcard_overlap_static_item: u64 = 107;

    let mut tree = Tree::new();

    assert!(tree.add(&path("/"), root_item).is_ok());
    assert!(tree.add(&Path::parse(Method::Post, "/").unwrap(), post_root_item).is_ok());
    assert!(tree.add(&path("/param/:item"), param_item).is_ok());
    assert!(tree.add(&path("/param"), param_static_item).is_ok());
    assert!(tree.add(&path("/wildcard/*wildcard"), wildcard_item).is_ok());
    assert!(tree.add(&path("/param/overlap"), param_overlap_static_item).is_ok());
    assert!(tree.add(&path("/wildcard/overlap"), wildcard_overlap_static_item).is_ok());

    let tree = tree;
    let m = &Method::Get;

    assert_eq!(*tree.lookup(m, "/").unwrap().get_item(), root_item);
    assert!(tree.lookup(m, "/asdf").is_err());
    assert_eq!(*tree.lookup(&Method::Post, "/").unwrap().get_item(), post_root_item);
    assert_eq!(*tree.lookup(m, "/param").unwrap().get_item(), param_static_item);
    assert_eq!(*tree.lookup(m, "/param/asdf").unwrap().get_item(), param_item);
    assert!(tree.lookup(m, "/param/asdf/zxcv").is_err());
    assert_eq!(*tree.lookup(m, "/param/overlap").unwrap().get_item(), param_overlap_static_item);
    assert_eq!(*tree.lookup(m, "/wildcard/asdf").unwrap().get_item(), wildcard_item);
    assert_eq!(*tree.lookup(m, "/wildcard/asdf/zxcv").unwrap().get_item(), wildcard_item);
    assert_eq!(
        *tree.lookup(m, "/wildcard/overlap").unwrap().get_item(),
        wildcard_overlap_static_item
    );
    assert_eq!(
        tree.lookup(m, "/wildcard/foo/bar").unwrap().get_params().get("wildcard").unwrap().as_str(),
        "foo/bar"
    );
    assert!(tree.lookup(m, "/param/foo/bar").is_err());
    assert_eq!(
        tree.lookup(m, "/param/asdf").unwrap().get_params().get("item").unwrap().as_str(),
        "asdf"
    );
}

#[test]
fn test_tree_method_not_found() {
    let mut tree = Tree::new();

    assert!(tree.add(&path("/"), 11u64).is_ok());

    let tree = tree;

    assert!(tree.lookup(&Method::Get, "/").is_ok());
    match tree.lookup(&Method::Post, "/") {
        Err(TreeError::MethodNotFound { method }) => assert_eq!(method, Method::Post),
        Err(other) => panic!("expected MethodNotFound, got {:?}", other),
        Ok(_) => panic!("expected MethodNotFound, but the path resolved"),
    }
}

#[test]
fn test_route_already_registered() {
    let static_item: u64 = 21;
    let param_item: u64 = 22;
    let wildcard_item: u64 = 23;

    let mut tree = Tree::new();
    assert!(tree.add(&path("/static"), static_item).is_ok());
    assert!(tree.add(&path("/parameter/:item"), param_item).is_ok());
    assert!(tree.add(&path("/wildcard/*wildcard"), wildcard_item).is_ok());

    let static_item_2: u64 = 31;
    let param_item_2: u64 = 32;
    let wildcard_item_2: u64 = 33;

    assert!(tree.add(&path("/static"), static_item_2).is_err());
    assert_ne!(*tree.lookup(&Method::Get, "/static").unwrap().get_item(), static_item_2);
    assert!(tree.add(&path("/wildcard/:item"), param_item_2).is_err());
    assert_ne!(*tree.lookup(&Method::Get, "/wildcard/foo").unwrap().get_item(), param_item_2);
    assert!(tree.add(&path("/parameter/*wildcard"), wildcard_item_2).is_err());
    assert_ne!(*tree.lookup(&Method::Get, "/parameter/foo").unwrap().get_item(), wildcard_item_2);
}

#[test]
fn test_same_dynamic_path_second_method_conflicts() {
    let mut tree = Tree::new();
    assert!(tree.add(&path("/x/:a"), 1u64).is_ok());

    match tree.add(&Path::parse(Method::Post, "/x/:a").unwrap(), 2u64) {
        Err(TreeError::PathAlreadyRegistered { route }) => assert_eq!(route, "x/:a"),
        Err(other) => panic!("expected PathAlreadyRegistered, got {:?}", other),
        Ok(_) => panic!("expected PathAlreadyRegistered, but the add succeeded"),
    }
}

#[test]
fn test_optimize_keeps_contents() {
    let mut tree = Tree::new();
    assert!(tree.add(&path("/a/b"), 1u64).is_ok());
    assert!(tree.add(&path("/a/:c"), 2u64).is_ok());
    tree.optimize();

    assert_eq!(*tree.lookup(&Method::Get, "/a/b").unwrap().get_item(), 1u64);
    assert_eq!(*tree.lookup(&Method::Get, "/a/z").unwrap().get_item(), 2u64);
}
