use star_router::{
    Linker, Method, Route, RouteParameter, RouteResolver, Router, RouterError, TreeError,
};

fn params(pairs: &[(&str, &str)]) -> RouteParameter {
    let mut p = RouteParameter::new();
    for (k, v) in pairs {
        p.insert(String::from(*k), String::from(*v));
    }
    p
}

fn base() -> String {
    String::from("http://example.com")
}

#[test]
fn test_happy_path() {
    let mut router = Router::new(base());

    assert!(router.add(Route::create("root", Method::Get, "/", 1u64).unwrap()).is_ok());
    assert!(router.add(Route::create("root", Method::Get, "/", 1u64).unwrap()).is_err());

    let router = router;

    let route_match = router.resolve(&Method::Get, "/").unwrap();
    assert_eq!(*route_match.get_item(), 1u64);
    assert!(route_match.get_params().is_empty());

    assert_eq!(router.link("root", RouteParameter::new()).unwrap(), "http://example.com/");
    assert!(router.link("asdf", RouteParameter::new()).is_err());

    match router.resolve(&Method::Get, "/asdf") {
        Err(RouterError::TreeError { tree_error: TreeError::PathNotFound { path } }) => {
            assert_eq!(path, "/asdf");
        },
        Ok(_) => panic!("expected PathNotFound, but the path resolved"),
        Err(other) => panic!("expected PathNotFound, got {:?}", other),
    }
}

#[test]
fn test_trait_objects() {
    let mut router = Router::new(base());
    assert!(router.add(Route::create("root", Method::Get, "/", 7u64).unwrap()).is_ok());

    let resolver: &dyn RouteResolver<Item = u64> = &router;
    assert_eq!(*resolver.resolve(&Method::Get, "/").unwrap().get_item(), 7u64);

    let linker: &dyn Linker = &router;
    assert_eq!(linker.link("root", RouteParameter::new()).unwrap(), "http://example.com/");
}

#[test]
fn test_static_precedence() {
    let mut router = Router::new(base());
    assert!(router.add(Route::create("p", Method::Get, "/param/:item", 1u64).unwrap()).is_ok());
    assert!(router.add(Route::create("o", Method::Get, "/param/overlap", 2u64).unwrap()).is_ok());

    let m = router.resolve(&Method::Get, "/param/overlap").unwrap();
    assert_eq!(*m.get_item(), 2u64);
    assert!(m.get_params().get("item").is_none());
    assert!(m.get_params().is_empty());

    let m = router.resolve(&Method::Get, "/param/asdf").unwrap();
    assert_eq!(*m.get_item(), 1u64);
    assert_eq!(m.get_params().get("item").unwrap().as_str(), "asdf");
}

#[test]
fn test_wildcard_greediness() {
    let mut router = Router::new(base());
    assert!(router.add(Route::create("w", Method::Get, "/wildcard/*wildcard", 5u64).unwrap()).is_ok());

    let m = router.resolve(&Method::Get, "/wildcard/foo/bar").unwrap();
    assert_eq!(*m.get_item(), 5u64);
    assert_eq!(m.get_params().get("wildcard").unwrap().as_str(), "foo/bar");

    let m = router.resolve(&Method::Get, "/wildcard/a/b/c").unwrap();
    assert_eq!(*m.get_item(), 5u64);
    assert_eq!(m.get_params().get("wildcard").unwrap().as_str(), "a/b/c");

    let m = router.resolve(&Method::Get, "/wildcard/asdf").unwrap();
    assert_eq!(m.get_params().get("wildcard").unwrap().as_str(), "asdf");
}

#[test]
fn test_wildcard_overlapping_static_wins() {
    let mut router = Router::new(base());
    assert!(router.add(Route::create("w", Method::Get, "/wildcard/*wildcard", 1u64).unwrap()).is_ok());
    assert!(router.add(Route::create("o", Method::Get, "/wildcard/overlap", 2u64).unwrap()).is_ok());

    assert_eq!(*router.resolve(&Method::Get, "/wildcard/overlap").unwrap().get_item(), 2u64);
    assert_eq!(*router.resolve(&Method::Get, "/wildcard/other").unwrap().get_item(), 1u64);
}

#[test]
fn test_method_isolation() {
    let mut router = Router::new(base());
    assert!(router.add(Route::create("root", Method::Get, "/", 1u64).unwrap()).is_ok());

    assert!(router.resolve(&Method::Get, "/").is_ok());
    match router.resolve(&Method::Post, "/") {
        Err(RouterError::TreeError { tree_error: TreeError::MethodNotFound { method } }) => {
            assert_eq!(method, Method::Post);
        },
        Ok(_) => panic!("expected MethodNotFound, but the path resolved"),
        Err(other) => panic!("expected MethodNotFound, got {:?}", other),
    }
}

#[test]
fn test_same_path_two_methods() {
    let mut router = Router::new(base());
    assert!(router.add(Route::create("get_root", Method::Get, "/", 1u64).unwrap()).is_ok());
    assert!(router.add(Route::create("post_root", Method::Post, "/", 2u64).unwrap()).is_ok());

    assert_eq!(*router.resolve(&Method::Get, "/").unwrap().get_item(), 1u64);
    assert_eq!(*router.resolve(&Method::Post, "/").unwrap().get_item(), 2u64);
}

#[test]
fn test_conflict_dynamic_siblings() {
    let mut router = Router::new(base());
    assert!(router.add(Route::create("p", Method::Get, "/parameter/:item", 1u64).unwrap()).is_ok());

    match router.add(Route::create("w", Method::Get, "/parameter/*wildcard", 2u64).unwrap()) {
        Err(RouterError::TreeError {
            tree_error: TreeError::PathAlreadyRegistered { route },
        }) => {
            assert_eq!(route, "parameter/*wildcard");
        },
        other => panic!("expected PathAlreadyRegistered, got {:?}", other),
    }

    let m = router.resolve(&Method::Get, "/parameter/foo").unwrap();
    assert_eq!(*m.get_item(), 1u64);
    assert_eq!(m.get_params().get("item").unwrap().as_str(), "foo");
}

#[test]
fn test_conflict_duplicate_static_route() {
    let mut router = Router::new(base());
    assert!(router.add(Route::create("a", Method::Get, "/static", 1u64).unwrap()).is_ok());

    match router.add(Route::create("b", Method::Get, "/static", 2u64).unwrap()) {
        Err(RouterError::TreeError {
            tree_error: TreeError::PathAlreadyRegistered { route },
        }) => {
            assert_eq!(route, "static");
        },
        other => panic!("expected PathAlreadyRegistered, got {:?}", other),
    }

    assert_eq!(*router.resolve(&Method::Get, "/static").unwrap().get_item(), 1u64);
}

#[test]
fn test_duplicate_name_rejected() {
    let mut router = Router::new(base());
    assert!(router.add(Route::create("dup", Method::Get, "/a", 1u64).unwrap()).is_ok());

    match router.add(Route::create("dup", Method::Get, "/b", 2u64).unwrap()) {
        Err(RouterError::RouteAlreadyExists { route_name }) => {
            assert_eq!(route_name, "dup");
        },
        other => panic!("expected RouteAlreadyExists, got {:?}", other),
    }

    assert_eq!(*router.resolve(&Method::Get, "/a").unwrap().get_item(), 1u64);
    assert!(router.resolve(&Method::Get, "/b").is_err());
}

#[test]
fn test_deeper_path_than_parameter_route_fails() {
    let mut router = Router::new(base());
    assert!(router.add(Route::create("p", Method::Get, "/param/:item", 1u64).unwrap()).is_ok());

    assert!(router.resolve(&Method::Get, "/param/asdf/zxcv").is_err());
}

#[test]
fn test_link_round_trip() {
    let mut router = Router::new(base());
    assert!(router.add(Route::create("r", Method::Get, "/param/:item", 1u64).unwrap()).is_ok());

    assert_eq!(
        router.link("r", params(&[("item", "x")])).unwrap(),
        "http://example.com/param/x"
    );

    match router.link("r", RouteParameter::new()) {
        Err(RouterError::PathError {
            path_error: star_router::PathError::ParameterNotFound { parameter },
        }) => {
            assert_eq!(parameter, ":item");
        },
        other => panic!("expected ParameterNotFound, got {:?}", other),
    }

    match router.link("missing", RouteParameter::new()) {
        Err(RouterError::RouteNotFound { route_name }) => {
            assert_eq!(route_name, "missing");
        },
        other => panic!("expected RouteNotFound, got {:?}", other),
    }
}

#[test]
fn test_link_wildcard_keeps_separators() {
    let mut router = Router::new(base());
    assert!(router.add(Route::create("w", Method::Get, "/files/*rest", 1u64).unwrap()).is_ok());

    assert_eq!(
        router.link("w", params(&[("rest", "a/b/c")])).unwrap(),
        "http://example.com/files/a/b/c"
    );
}

#[test]
fn test_concrete_scenario() {
    let mut router = Router::new(base());
    assert!(router.add(Route::create("root", Method::Get, "/", 1u64).unwrap()).is_ok());

    let m = router.resolve(&Method::Get, "/").unwrap();
    assert_eq!(*m.get_item(), 1u64);
    assert!(m.get_params().is_empty());

    assert_eq!(router.link("root", RouteParameter::new()).unwrap(), "http://example.com/");

    match router.resolve(&Method::Get, "/asdf") {
        Err(RouterError::TreeError { tree_error: TreeError::PathNotFound { .. } }) => {},
        Ok(_) => panic!("expected PathNotFound, but the path resolved"),
        Err(other) => panic!("expected PathNotFound, got {:?}", other),
    }
}

#[test]
fn test_optimize_preserves_behavior() {
    let mut router = Router::new(base());
    assert!(router.add(Route::create("p", Method::Get, "/param/:item", 1u64).unwrap()).is_ok());
    assert!(router.add(Route::create("o", Method::Get, "/param/overlap", 2u64).unwrap()).is_ok());
    assert!(router.add(Route::create("w", Method::Get, "/wildcard/*rest", 3u64).unwrap()).is_ok());

    let router = router.optimize();

    assert_eq!(*router.resolve(&Method::Get, "/param/overlap").unwrap().get_item(), 2u64);
    let m = router.resolve(&Method::Get, "/param/xyz").unwrap();
    assert_eq!(*m.get_item(), 1u64);
    assert_eq!(m.get_params().get("item").unwrap().as_str(), "xyz");
    assert_eq!(
        router.resolve(&Method::Get, "/wildcard/a/b").unwrap().get_params().get("rest").unwrap().as_str(),
        "a/b"
    );
    assert_eq!(
        router.link("p", params(&[("item", "y")])).unwrap(),
        "http://example.com/param/y"
    );
}

#[test]
fn test_link_joins_against_base_path() {
    let mut router = Router::new(String::from("http://example.com/app/"));
    assert!(router.add(Route::create("r", Method::Get, "/x/:y", 1u64).unwrap()).is_ok());

    assert_eq!(
        router.link("r", params(&[("y", "z")])).unwrap(),
        "http://example.com/app/x/z"
    );
}

#[test]
fn test_link_invalid_base_reports_url_error() {
    let mut router = Router::new(String::from("not a url"));
    assert!(router.add(Route::create("r", Method::Get, "/a", 1u64).unwrap()).is_ok());

    match router.link("r", RouteParameter::new()) {
        Err(RouterError::UrlParseError { .. }) => {},
        other => panic!("expected UrlParseError, got {:?}", other),
    }
}
