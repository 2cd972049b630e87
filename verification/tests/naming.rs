use routefinder::{Capture, Captures, Match, Route, RouteSpec};
use std::cmp::Ordering;

fn parsed(pattern: &str) -> RouteSpec {
    RouteSpec::parse(pattern).unwrap()
}

#[test]
fn a_capture_has_a_name_and_a_value() {
    let capture = Capture::new("key", "value");
    assert_eq!(capture.name(), "key");
    assert_eq!(capture.value(), "value");

    let owned = Capture::owned(String::from("k"), String::from("v"));
    assert_eq!(owned.name(), "k");
    assert_eq!(owned.value(), "v");
}

#[test]
fn owned_captures_outlive_their_source() {
    let owned = {
        let key = String::from("key");
        let value = String::from("value");
        Capture::new(&key, &value).into_owned()
    };
    assert_eq!(owned.name(), "key");
    assert_eq!(owned.value(), "value");

    let all = {
        let path = String::from("/a/b/c");
        let route = parsed("/:x/*");
        let raw = route.matches(&path).unwrap();
        let found = Match {
            path: &path,
            route: &route,
            captures: raw,
            handler: &(),
        };
        found.captures().into_owned()
    };
    assert_eq!(all.iter(), [("x", "a")]);
    assert_eq!(all.wildcard(), Some("b/c"));
}

#[test]
fn empty_captures() {
    let captures = Captures::new();
    assert!(captures.params().is_empty());
    assert!(captures.iter().is_empty());
    assert_eq!(captures.wildcard(), None);
    assert_eq!(captures.get("a"), None);
    let captures = Captures::default();
    assert!(captures.params().is_empty());
    assert_eq!(captures.wildcard(), None);
}

#[test]
fn get_returns_the_first_value_of_a_name() {
    let mut captures = Captures::from_pairs(&[("a", "1"), ("b", "2"), ("a", "3")]);
    assert_eq!(captures.get("a"), Some("1"));
    assert_eq!(captures.get("b"), Some("2"));
    assert_eq!(captures.get("c"), None);
    assert_eq!(captures.get(""), None);
    captures.push(Capture::new("c", "4"));
    assert_eq!(captures.get("c"), Some("4"));
    assert_eq!(captures.params().len(), 4);
    assert_eq!(captures.params()[3].name(), "c");
}

#[test]
fn naming_the_captures_of_a_match() {
    let route = parsed("/:a/:b.:c/*");
    let path = "/1/2.3/4/5";
    let found = Match {
        path,
        route: &route,
        captures: route.matches(path).unwrap(),
        handler: &7,
    };
    assert_eq!(found.path(), path);
    assert_eq!(*found.handler(), 7);
    assert_eq!(*found, 7);
    assert!(*found.route() == route);
    let captures = found.captures();
    assert_eq!(captures.iter(), [("a", "1"), ("b", "2"), ("c", "3")]);
    assert_eq!(captures.wildcard(), Some("4/5"));
}

#[test]
fn raw_captures_that_run_out() {
    let route = parsed("/:a/:b/*");
    let found = Match {
        path: "",
        route: &route,
        captures: vec!["x"],
        handler: &(),
    };
    let captures = found.captures();
    assert_eq!(captures.iter(), [("a", "x")]);
    assert_eq!(captures.wildcard(), None);
}

#[test]
fn matches_order_as_their_routes() {
    let specific = parsed("/a/b");
    let general = parsed("/a/:b");
    let one = Match {
        path: "/a/b",
        route: &specific,
        captures: vec![],
        handler: &1,
    };
    let other = Match {
        path: "/a/b",
        route: &general,
        captures: vec!["b"],
        handler: &2,
    };
    assert_eq!(one.cmp(&other), Ordering::Less);
    assert_eq!(other.cmp(&one), Ordering::Greater);
    assert_eq!(one.cmp(&one), Ordering::Equal);
}

#[test]
fn a_route_on_its_own() {
    let route = Route::new("/hello/:planet", 5).unwrap();
    assert_eq!(*route.handler(), 5);
    assert!(*route.definition() == parsed("/hello/:planet"));
    assert_eq!(route.segments().len(), 3);
    let found = route.matches("/hello/mars").unwrap();
    assert_eq!(*found, 5);
    assert_eq!(found.captures().get("planet"), Some("mars"));
    assert!(route.matches("/goodbye/mars").is_none());
    assert_eq!(
        route
            .template(&Captures::from_pairs(&[("planet", "venus")]))
            .unwrap()
            .to_string(),
        "/hello/venus"
    );
    assert!(Route::new(":", ()).is_err());
}

#[test]
fn rendering_a_route_from_values() {
    let route = parsed("/users/:id/files/:name.:ext/*");
    let mut values = Captures::from_pairs(&[("id", "7"), ("name", "notes"), ("ext", "txt")]);
    assert!(route.template(&values).is_none());
    values.set_wildcard("v/2");
    let reverse = route.template(&values).unwrap();
    assert_eq!(reverse.to_string(), "/users/7/files/notes.txt/v/2");
    assert!(*reverse.route() == route);
    assert_eq!(reverse.captures().get("id"), Some("7"));
}

#[test]
fn only_routes_with_exactly_the_names_agree() {
    let values = Captures::from_pairs(&[("world", "mars")]);
    assert!(parsed("/hey/:world").template(&values).is_some());
    assert!(parsed("/:world").template(&values).is_some());
    assert!(parsed("/hey/:planet").template(&values).is_none());
    assert!(parsed("/hey").template(&values).is_none());
    assert!(parsed("/:greeting/:world").template(&values).is_none());
    assert!(parsed("/:world/:world").template(&values).is_none());
    assert!(parsed("/:world/*").template(&values).is_none());

    let two = Captures::from_pairs(&[("a", "1"), ("b", "2")]);
    assert!(parsed("/:a/:b").template(&two).is_some());
    assert!(parsed("/:b/:a").template(&two).is_none());
}

#[test]
fn a_wildcard_value_needs_a_wildcard_route() {
    let mut values = Captures::from_pairs(&[("world", "mars")]);
    values.set_wildcard("rest");
    assert!(parsed("/hey/:world").template(&values).is_none());
    assert_eq!(
        parsed("/hey/:world/*")
            .template(&values)
            .unwrap()
            .to_string(),
        "/hey/mars/rest"
    );
    let mut only = Captures::new();
    assert!(parsed("/*").template(&only).is_none());
    assert!(parsed("/a").template(&only).is_some());
    only.set_wildcard("");
    assert_eq!(parsed("/*").template(&only).unwrap().to_string(), "/");
    assert!(parsed("/a").template(&only).is_none());
}

#[test]
fn a_name_that_occurs_twice_renders_its_first_value() {
    let values = Captures::from_pairs(&[("a", "1"), ("a", "2")]);
    assert_eq!(
        parsed("/:a/:a").template(&values).unwrap().to_string(),
        "/1/1"
    );
}

#[test]
fn what_a_route_captures_renders_a_path_that_it_matches() {
    let route = parsed("/:a/:b.:c/*");
    for path in ["/users/jbr.txt/x/y", "users/jbr.txt", "/u/j.t/"] {
        let found = Match {
            path,
            route: &route,
            captures: route.matches(path).unwrap(),
            handler: &(),
        };
        let captures = found.captures();
        let rendered = route.template(&captures).unwrap().to_string();
        assert_eq!(route.matches(&rendered), route.matches(path));
    }
}

#[test]
fn matches_and_routes_compare_by_route() {
    let specific = Route::new("/a/b", 1).unwrap();
    let general = Route::new("/a/:b", 2).unwrap();
    let again = Route::new("a/b/", 3).unwrap();
    assert!(specific < general);
    assert!(specific == again);
    assert!(specific != general);
    let one = specific.matches("/a/b").unwrap();
    let other = general.matches("/a/b").unwrap();
    assert!(one < other);
    assert!(one != other);
    assert!(one == again.matches("/a/b").unwrap());
    assert!(*one.into_route() == *specific.definition());
}
