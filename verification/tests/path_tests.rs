use star_router::{Item, Method, Path, PathError, RouteParameter};

#[test]
fn test_parse_root() {
    assert!(Path::parse(Method::Get, "/").is_ok());
    assert!(Path::parse(Method::Get, "").is_ok());
}

#[test]
fn test_parse_wildcard_not_last() {
    assert!(Path::parse(Method::Get, "/*foo/asdf").is_err());
    assert_eq!(
        Path::parse(Method::Get, "/foo/*bar/baz").unwrap_err(),
        PathError::WildcardItemMustBeLast
    );
}

#[test]
fn test_parse_empty_parameter_name() {
    assert_eq!(
        Path::parse(Method::Get, "/foo/:/bar").unwrap_err(),
        PathError::NameMustNotBeEmpty
    );
    assert_eq!(
        Path::parse(Method::Get, "/foo/*").unwrap_err(),
        PathError::NameMustNotBeEmpty
    );
}

#[test]
fn test_separators_only_parse_to_zero_segments() {
    let path = Path::parse(Method::Get, "//").unwrap();
    assert!(path.is_empty());
    assert_eq!(path.len(), 0);
    let path = Path::parse(Method::Get, "///").unwrap();
    assert_eq!(path.len(), 0);
}

#[test]
fn test_missing_params() {
    let path = Path::parse(Method::Get, "/foo/:bar/baz/*asdf").unwrap();

    let mut params = RouteParameter::new();
    params.insert(String::from("bar"), String::from("zxcv"));
    assert!(path.render(params).is_err());

    let mut params = RouteParameter::new();
    params.insert(String::from("bar"), String::from("zxcv"));
    params.insert(String::from("asdf"), String::from("qwer"));
    assert!(path.render(params).is_ok());
}

#[test]
fn test_render_missing_parameter_error_names_segment() {
    let path = Path::parse(Method::Get, "/param/:item").unwrap();
    let err = path.render(RouteParameter::new()).unwrap_err();
    assert_eq!(
        err,
        PathError::ParameterNotFound { parameter: String::from(":item") }
    );
}

#[test]
fn test_render_substitutes_values() {
    let path = Path::parse(Method::Get, "/param/:item").unwrap();
    let mut params = RouteParameter::new();
    params.insert(String::from("item"), String::from("x"));
    assert_eq!(path.render(params).unwrap(), "param/x");
}

#[test]
fn test_static_render_round_trip() {
    let path = Path::parse(Method::Get, "//a///b/c/").unwrap();
    let mut params = RouteParameter::new();
    params.insert(String::from("unused"), String::from("value"));
    assert_eq!(path.render(params).unwrap(), "a/b/c");
    assert_eq!(path.render_original(), "a/b/c");
}

#[test]
fn test_render_original_keeps_sigils() {
    let path = Path::parse(Method::Get, "/foo/:bar/*baz").unwrap();
    assert_eq!(path.render_original(), "foo/:bar/*baz");
}

#[test]
fn test_item_cannot_be_empty() {
    assert!(Item::Static(String::from("")).validate().is_err());
    assert!(Item::Parameter(String::from(":")).validate().is_err());
    assert!(Item::Wildcard(String::from("*")).validate().is_err());
    assert!(Item::Static(String::from("a")).validate().is_ok());
    assert!(Item::Parameter(String::from(":a")).validate().is_ok());
}

#[test]
fn test_item_issers() {
    let static_item = Item::Static(String::from("a"));
    let parameter_item = Item::Parameter(String::from(":a"));
    let wildcard_item = Item::Wildcard(String::from("*a"));

    assert!(static_item.is_static());
    assert!(!static_item.is_parameter());
    assert!(!static_item.is_wildcard());

    assert!(!parameter_item.is_static());
    assert!(parameter_item.is_parameter());
    assert!(!parameter_item.is_wildcard());

    assert!(!wildcard_item.is_static());
    assert!(!wildcard_item.is_parameter());
    assert!(wildcard_item.is_wildcard());
}

#[test]
fn test_item_get_name() {
    assert_eq!(Item::Parameter(String::from(":bar")).get_name(), ":bar");
    assert_eq!(Item::Static(String::from("foo")).get_name(), "foo");
}

#[test]
fn test_path_returns_method() {
    let path = Path::parse(Method::Options, "/").unwrap();
    assert_eq!(*path.get_method(), Method::Options);
}

#[test]
fn test_get_items_classification() {
    let path = Path::parse(Method::Get, "/a/:b/*c").unwrap();
    let items = path.get_items();
    assert_eq!(items.len(), 3);
    assert!(items[0].is_static());
    assert!(items[1].is_parameter());
    assert!(items[2].is_wildcard());
}
