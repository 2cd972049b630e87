use routefinder::{Captures, RouteSpec, Router};
use std::str::FromStr;

struct Pattern(String);

impl std::fmt::Debug for Pattern {
    fn fmt(&self, f: &mut std::fmt::Formatter<'_>) -> std::fmt::Result {
        f.write_str(&self.0)
    }
}

struct Routes<'a, T>(&'a Router<T>);

impl<T> std::fmt::Debug for Routes<'_, T> {
    fn fmt(&self, f: &mut std::fmt::Formatter<'_>) -> std::fmt::Result {
        let mut set = f.debug_set();
        for pattern in self.0.patterns() {
            set.entry(&Pattern(pattern));
        }
        set.finish()
    }
}

#[test]
fn it_works() {
    let router = Router::new_with_routes(vec![
        ("/*", 1),
        ("/hello", 2),
        ("/:greeting", 3),
        ("/hey/:world", 4),
        ("/hey/earth", 5),
        ("/:greeting/:world/*", 6),
    ])
    .unwrap();

    // Of two routes that agree as far as the shorter one goes, the one with
    // more segments is the more specific.
    assert_eq!(
        &format!("{:#?}", Routes(&router)),
        r#"{
    /hey/earth,
    /hey/:world,
    /hello,
    /:greeting/:world/*,
    /:greeting,
    /*,
}"#
    );

    let matches = router.matches("/hello");
    assert_eq!(matches.len(), 3);
    assert_eq!(router.matches("/").len(), 1);
    assert_eq!(*router.best_match("/hey/earth").unwrap(), 5);

    assert_eq!(
        router
            .best_match("/hey/mars")
            .unwrap()
            .captures()
            .get("world"),
        Some("mars")
    );

    let m = router.best_match("/hey/earth/wildcard/stuff").unwrap();

    assert_eq!(*m, 6);
    let captures = m.captures();
    assert_eq!(captures.wildcard(), Some("wildcard/stuff"));
    assert_eq!(captures.get("greeting"), Some("hey"));
    assert_eq!(captures.get("world"), Some("earth"));
}

#[test]
fn several_params() {
    let router = Router::new_with_routes(vec![
        ("/:a", 1),
        ("/:a/:b", 2),
        ("/:a/:b/:c", 3),
        ("/:param1/specific/:param2", 4),
    ])
    .unwrap();
    assert_eq!(*router.best_match("/hi").unwrap(), 1);
    assert_eq!(*router.best_match("/hi/there").unwrap(), 2);
    assert_eq!(*router.best_match("/hi/there/hey").unwrap(), 3);

    assert_eq!(router.matches("/hi/specific/anything").len(), 2);

    assert_eq!(*router.best_match("/hi/specific/anything").unwrap(), 4);

    assert!(router.matches("/").is_empty());
    assert!(router.matches("/a/b/c/d").is_empty());
}

#[test]
fn wildcard_matches_root() {
    let router = Router::new_with_routes(vec![("*", ())]).unwrap();
    assert!(router.best_match("/").is_some());

    let router = Router::new_with_routes(vec![("/something/:anything/*", ())]).unwrap();
    assert!(router.best_match("/something/1/").is_some());

    let router = Router::new_with_routes(vec![("/something/:anything/*", ())]).unwrap();
    assert!(router.best_match("/something/1").is_some());
}

#[test]
fn trailing_slashes_are_ignored() {
    let router = Router::new_with_routes(vec![("/a", ())]).unwrap();
    assert!(router.best_match("/a/").is_some());
    assert!(router.best_match("/a").is_some());

    let router = Router::new_with_routes(vec![("/a/", ())]).unwrap();
    assert!(router.best_match("/a").is_some());
    assert!(router.best_match("/a/").is_some());
}

#[test]
fn captures() {
    let router = Router::new_with_routes(vec![("/:a/:b/:c", ())]).unwrap();
    let best_match = router.best_match("/aaa/bbb/ccc").unwrap();
    let captures = best_match.captures();
    assert_eq!(captures.get("a"), Some("aaa"));
    assert_eq!(captures.get("b"), Some("bbb"));
    assert_eq!(captures.get("c"), Some("ccc"));
    assert_eq!(captures.get("not-present"), None);

    let router = Router::new_with_routes(vec![("/*", ())]).unwrap();
    let best_match = router.best_match("/hello/world").unwrap();
    assert_eq!(best_match.captures().wildcard(), Some("hello/world"));
}

#[test]
fn errors_on_add() {
    let mut router = Router::new();

    assert!(router
        .add("*named_star", ())
        .unwrap_err()
        .to_string()
        .contains("replace `*named_star` with `*`"));

    assert_eq!(
        router.add(":", ()).unwrap_err().to_string(),
        "params must be named"
    );
}

#[test]
fn dots() {
    let router = Router::new_with_routes(vec![
        ("/:a.:b", 1),
        ("/:a/:b.:c", 2),
        ("/:a/:b", 3),
        ("/:a/:b.txt", 4),
    ])
    .unwrap();
    assert_eq!(*router.best_match("/hello.world").unwrap(), 1);
    assert_eq!(*router.best_match("/hi/there.world").unwrap(), 2);
    assert_eq!(*router.best_match("/hi/yep").unwrap(), 3);
    assert_eq!(*router.best_match("/hi/planet.txt").unwrap(), 4);

    assert_eq!(
        router
            .matches("/hi/planet.txt")
            .into_iter()
            .map(|x| *x)
            .collect::<Vec<_>>(),
        vec![4, 2, 3]
    );

    assert!(router.matches("/").is_empty());
    assert!(router.matches("/a/b/c/d").is_empty());
}

#[test]
fn parse() {
    assert_eq!(
        RouteSpec::from_str("a.:b").unwrap().matches("a.hello"),
        Some(vec!["hello"])
    );

    assert_eq!(
        RouteSpec::from_str(":a.:b").unwrap().matches("a.hello"),
        Some(vec!["a", "hello"])
    );
}

#[test]
fn multiple_slashes() {
    assert!(RouteSpec::from_str("a/b/c")
        .unwrap()
        .matches("/a////b///c//")
        .is_some());
}

#[test]
fn templating() {
    assert_eq!(
        RouteSpec::from_str(":a/:b.:c")
            .unwrap()
            .template(&Captures::from_pairs(&[
                ("a", "users"),
                ("b", "jbr"),
                ("c", "txt")
            ]))
            .unwrap()
            .to_string(),
        "/users/jbr.txt"
    );
}

#[test]
fn specific_matches() {
    assert_eq!(
        RouteSpec::from_str(":param")
            .unwrap()
            .matches("/a.b.c.d")
            .unwrap(),
        vec!["a.b.c.d"]
    );

    assert_eq!(
        RouteSpec::from_str(":a.:b")
            .unwrap()
            .matches("/a.b.c.d")
            .unwrap(),
        vec!["a", "b.c.d"]
    );

    assert_eq!(
        RouteSpec::from_str(":a.:b.:c")
            .unwrap()
            .matches("/a.b.c.d")
            .unwrap(),
        vec!["a", "b", "c.d"]
    );

    assert_eq!(
        RouteSpec::from_str(":a.:b.:c.:d")
            .unwrap()
            .matches("/a.b.c.d")
            .unwrap(),
        vec!["a", "b", "c", "d"]
    );

    assert!(RouteSpec::from_str(":a.:b").unwrap().matches("/a").is_none());
}

#[test]
fn priority() {
    assert!(RouteSpec::from_str("exact").unwrap() < RouteSpec::from_str(":param").unwrap());
    // With as many dots, the route with more segments comes first.
    assert!(RouteSpec::from_str("a/b").unwrap() < RouteSpec::from_str("a").unwrap());
    assert!(RouteSpec::from_str(":a.:b").unwrap() < RouteSpec::from_str(":a").unwrap());
}

#[test]
fn extend_captures() {
    let mut captures = Captures::from_pairs(&[("key", "value")]);
    let other_captures = Captures::from_pairs(&[("key2", "value2")]);

    captures.extend(other_captures);

    assert_eq!(captures.iter(), [("key", "value"), ("key2", "value2")]);
}

#[test]
fn append_captures() {
    let mut captures = Captures::from_pairs(&[("key", "value")]);
    captures.set_wildcard("something");

    let mut other_captures = Captures::from_pairs(&[("key2", "value2")]);
    other_captures.set_wildcard("other");

    captures.append(other_captures);

    assert_eq!(captures.iter(), [("key", "value"), ("key2", "value2")]);

    assert_eq!(Some("other"), captures.wildcard());
}

#[test]
fn wildcard_vs_param() {
    let router =
        Router::new_with_routes(vec![("/foo/*", "wildcard"), ("/foo/:bar", "param")]).unwrap();
    assert_eq!(*router.best_match("/foo/123").unwrap(), "param");
}

#[test]
fn trailing_slashes() {
    let router = Router::new_with_routes(vec![("/foo/bar", "no-trailing-slash")]).unwrap();
    assert_eq!(
        *router.best_match("/foo/bar/").unwrap(),
        "no-trailing-slash"
    );
}

#[test]
fn prefix_ambiguity() {
    let router =
        Router::new_with_routes(vec![("/foo/bar", "exact"), ("/foo/:bar", "param")]).unwrap();
    assert_eq!(*router.best_match("/foo/bar").unwrap(), "exact");
    assert_eq!(*router.best_match("/foo/qux").unwrap(), "param");
}

#[test]
fn slashes() {
    let router = Router::new_with_routes(vec![("/foo/bar", "one-slash")]).unwrap();
    assert_eq!(*router.best_match("//foo///bar").unwrap(), "one-slash");
    assert_eq!(*router.best_match("/foo//bar").unwrap(), "one-slash");
}

#[test]
fn wildcard() {
    let router = Router::new_with_routes(vec![("/foo/*", "wildcard")]).unwrap();
    assert_eq!(*router.best_match("/foo/bar/baz/qux").unwrap(), "wildcard");
}

#[test]
fn root() {
    let router = Router::new_with_routes(vec![("/", "root")]).unwrap();
    assert_eq!(*router.best_match("").unwrap(), "root");
}

#[test]
fn simple_exact_match() {
    let router = Router::new_with_routes(vec![("foo", "foo")]).unwrap();
    assert_eq!(*router.best_match("foo").unwrap(), "foo");
}

#[test]
fn param_then_dot_or_slash() {
    let router = Router::new_with_routes(vec![("/foo/:bar.baz", "dot")]).unwrap();
    assert_eq!(*router.best_match("foo/qux.baz").unwrap(), "dot");
}

#[test]
fn both_param_and_wildcard_at_root() {
    let router = Router::new_with_routes(vec![("*", 0), ("/:param", 1)]).unwrap();
    assert_eq!(*router.best_match("/").unwrap(), 0);
}

#[test]
fn exact_and_param_and_wildcard_precedence() {
    let router = Router::new_with_routes(vec![
        ("/", "root"),
        ("*", "wildcard"),
        ("/:param", "param"),
        ("/prefix/*", "prefixed-wildcard"),
        ("/prefix", "prefix"),
        ("/prefix/:param", "prefixed-param"),
    ])
    .unwrap();
    // `/` and `*` end at the same node of the trie, which keeps the route
    // that was inserted last.
    assert_eq!(*router.best_match("/").unwrap(), "wildcard");
    assert_eq!(*router.best_match("/foo").unwrap(), "param");
    assert_eq!(*router.best_match("/foo/bar").unwrap(), "wildcard");

    assert_eq!(*router.best_match("/prefix").unwrap(), "prefix");
    assert_eq!(*router.best_match("/prefix/foo").unwrap(), "prefixed-param");
    assert_eq!(
        *router.best_match("/prefix/foo/bar").unwrap(),
        "prefixed-wildcard"
    );
}
