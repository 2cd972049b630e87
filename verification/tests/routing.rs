use routefinder::router::may_add;
use routefinder::{Captures, RouteSpec, Router, Trie};

#[test]
fn specificity() {
    let mut router = Router::new();
    router.add("*", 0).unwrap();
    router.add("/:param", 1).unwrap();
    router.add("/hello", 2).unwrap();
    assert_eq!(*router.best_match("/hello").unwrap(), 2);
    assert_eq!(*router.best_match("/hey").unwrap(), 1);
    assert_eq!(
        router.best_match("/hey").unwrap().captures().get("param"),
        Some("hey")
    );
    assert_eq!(*router.best_match("/hey/there").unwrap(), 0);
    assert_eq!(*router.best_match("/").unwrap(), 0);
}

#[test]
fn all_matches_in_order() {
    let mut router = Router::new();
    router.add("*", ()).unwrap();
    router.add("/:param", ()).unwrap();
    router.add("/hello", ()).unwrap();
    assert_eq!(router.matches("/").len(), 1);
    assert_eq!(router.matches("/hello").len(), 3);
    assert_eq!(router.matches("/hey").len(), 2);
    assert_eq!(router.matches("/hey/there").len(), 1);
    let patterns: Vec<String> = router
        .matches("/hello")
        .iter()
        .map(|m| m.route().to_string())
        .collect();
    assert_eq!(patterns, ["/hello", "/:param", "/*"]);
}

#[test]
fn routes_and_handlers_in_order() {
    let mut router = Router::new();
    assert!(router.is_empty());
    router.add("*", 1).unwrap();
    router.add("/:param", 2).unwrap();
    router.add("/hello", 3).unwrap();
    assert_eq!(router.len(), 3);
    assert!(!router.is_empty());
    let all = router.iter();
    assert_eq!(all.len(), 3);
    assert_eq!(all[0].0.to_string(), "/hello");
    assert_eq!(all[0].1, &3);
    assert_eq!(all[2].0.to_string(), "/*");
    assert_eq!(router.patterns(), ["/hello", "/:param", "/*"]);
    assert_eq!(router.nth(0), 2);
    assert_eq!(router.nth(2), 0);
    assert_eq!(router.route(1).source(), Some("/:param"));
    assert_eq!(*router.handler(1), 2);
}

#[test]
fn routes_that_rank_alike_stay_in_the_order_of_registration() {
    let router =
        Router::new_with_routes(vec![("/b", 1), ("/a", 2), ("/:x", 3), ("/c", 4)]).unwrap();
    assert_eq!(router.patterns(), ["/b", "/a", "/c", "/:x"]);
    assert_eq!(*router.best_match("/a").unwrap(), 2);
    assert_eq!(*router.best_match("/c").unwrap(), 4);
    assert_eq!(*router.best_match("/d").unwrap(), 3);
}

#[test]
fn registering_a_route_again_replaces_its_handler() {
    let mut router = Router::new();
    router.add("/a/:b", 1).unwrap();
    router.add("/c", 2).unwrap();
    router.add("a/:b/", 3).unwrap();
    assert_eq!(router.len(), 2);
    assert_eq!(*router.best_match("/a/x").unwrap(), 3);
    assert_eq!(router.get_handler("/a/:b"), Some(&3));
    assert_eq!(router.route(0).source(), Some("a/:b/"));
    assert_eq!(router.patterns(), ["/a/:b", "/c"]);
}

#[test]
fn a_pattern_that_is_refused_changes_nothing() {
    let mut router = Router::new();
    router.add("/a", 1).unwrap();
    assert!(router.add("/a/*rest", 2).is_err());
    assert!(router.add("/:", 3).is_err());
    assert_eq!(router.len(), 1);
    assert_eq!(router.patterns(), ["/a"]);
    assert!(Router::new_with_routes(vec![("/a", 1), (":", 2), ("/b", 3)]).is_err());
}

#[test]
fn handlers_by_pattern() {
    let mut router = Router::new_with_routes(vec![("/a", 1), ("/:b", 2)]).unwrap();
    assert_eq!(router.get_handler("/a"), Some(&1));
    assert_eq!(router.get_handler("a/"), Some(&1));
    assert_eq!(router.get_handler("/:b"), Some(&2));
    assert_eq!(router.get_handler("/:c"), None);
    assert_eq!(router.get_handler("/b"), None);
    assert_eq!(router.get_handler(":"), None);

    *router.get_handler_mut("/a").unwrap() = 10;
    assert_eq!(*router.best_match("/a").unwrap(), 10);
    assert_eq!(router.get_handler("/a"), Some(&10));
    assert!(router.get_handler_mut("/x").is_none());
    assert!(router.get_handler_mut("*x").is_none());
}

#[test]
fn parameters_share_a_branch_of_the_trie() {
    let router = Router::new_with_routes(vec![("/:a", 1), ("/:b", 2)]).unwrap();
    assert_eq!(router.len(), 2);
    let best = router.best_match("/x").unwrap();
    assert_eq!(*best, 2);
    assert_eq!(best.captures().get("b"), Some("x"));
    assert_eq!(router.matches("/x").len(), 2);
}

#[test]
fn the_best_match_keeps_the_path() {
    let router = Router::new_with_routes(vec![("/:a/*", ())]).unwrap();
    let best = router.best_match("//x//y/z/").unwrap();
    assert_eq!(best.path(), "//x//y/z/");
    assert_eq!(best.route().source(), Some("/:a/*"));
    assert_eq!(best.captures().get("a"), Some("x"));
    assert_eq!(best.captures().wildcard(), Some("y/z"));
    assert!(router.best_match("").is_none());
}

#[test]
fn reverse_matches_in_order() {
    let router = Router::new_with_routes(vec![
        ("/*", 1),
        ("/:world", 2),
        ("/hey/:world", 3),
        ("/hey/:planet", 4),
        ("/hey/:world/*", 5),
    ])
    .unwrap();
    let mut values = Captures::from_pairs(&[("world", "mars")]);
    let found: Vec<String> = router
        .reverse_matches(&values)
        .iter()
        .map(|m| m.to_string())
        .collect();
    assert_eq!(found, ["/hey/mars", "/mars"]);
    assert_eq!(
        router.best_reverse_match(&values).unwrap().to_string(),
        "/hey/mars"
    );

    values.set_wildcard("a/b");
    let found: Vec<String> = router
        .reverse_matches(&values)
        .iter()
        .map(|m| m.to_string())
        .collect();
    assert_eq!(found, ["/hey/mars/a/b"]);

    let none = Captures::from_pairs(&[("moon", "io")]);
    assert!(router.reverse_matches(&none).is_empty());
    assert!(router.best_reverse_match(&none).is_none());
}

#[test]
fn the_trie_keeps_the_route_inserted_last() {
    let first: RouteSpec = "/a/:x".parse().unwrap();
    let second: RouteSpec = "/a/:y".parse().unwrap();
    let mut trie = Trie::new();
    trie.insert(&first, 0);
    assert_eq!(trie.matches("/a/b").unwrap().route, 0);
    trie.insert(&second, 1);
    let found = trie.matches("/a/b").unwrap();
    assert_eq!(found.route, 1);
    assert_eq!(found.captures, ["b"]);
    assert_eq!(found.wildcard, None);
    assert!(trie.matches("/a").is_none());
    assert!(trie.matches("/a/b/c").is_none());
}

#[test]
fn the_trie_on_an_empty_path() {
    let mut trie = Trie::new();
    assert!(trie.matches("").is_none());
    assert!(trie.matches("/a").is_none());
    trie.insert(&"/".parse().unwrap(), 4);
    assert_eq!(trie.matches("").unwrap().route, 4);
    assert_eq!(trie.matches("///").unwrap().route, 4);
    assert!(trie.matches("/a").is_none());
}

#[test]
fn the_trie_takes_the_wildcard_last() {
    let routes: Vec<RouteSpec> = vec![
        "/*".parse().unwrap(),
        "/a/:b".parse().unwrap(),
        "/a/b".parse().unwrap(),
    ];
    let mut trie = Trie::new();
    for (id, route) in routes.iter().enumerate() {
        trie.insert(route, id);
    }
    assert_eq!(trie.matches("/a/b").unwrap().route, 2);
    let by_param = trie.matches("/a/c").unwrap();
    assert_eq!(by_param.route, 1);
    assert_eq!(by_param.captures, ["c"]);
    let by_wildcard = trie.matches("/x/y").unwrap();
    assert_eq!(by_wildcard.route, 0);
    assert!(by_wildcard.captures.is_empty());
    assert_eq!(by_wildcard.wildcard, Some("x/y"));
    assert_eq!(trie.matches("").unwrap().wildcard, Some(""));
}

#[test]
fn the_trie_splits_a_path_at_dots_and_slashes() {
    let routes: Vec<RouteSpec> = vec![
        "/:name.:ext".parse().unwrap(),
        "/:name".parse().unwrap(),
        "/file.txt".parse().unwrap(),
    ];
    let mut trie = Trie::new();
    for (id, route) in routes.iter().enumerate() {
        trie.insert(route, id);
    }
    let found = trie.matches("/a.b").unwrap();
    assert_eq!(found.route, 0);
    assert_eq!(found.captures, ["a", "b"]);
    assert_eq!(trie.matches("/a").unwrap().route, 1);
    // literal text with a dot in it is never one part of a path
    let found = trie.matches("/file.txt").unwrap();
    assert_eq!(found.route, 0);
    assert_eq!(found.captures, ["file", "txt"]);
    assert!(trie.matches("/a.b.c").is_none());
}

#[test]
fn a_pattern_that_cannot_be_matched_is_not_added() {
    assert!(may_add("/a/*"));
    assert!(may_add("/:a.:b"));
    assert!(may_add("*named"));
    assert!(!may_add("/*/a"));
    assert!(!may_add("*.a"));

    let mut router = Router::new();
    assert_eq!(router.try_add("/a/*", 1).unwrap(), true);
    assert_eq!(router.try_add("/*/a", 2).unwrap(), false);
    assert!(router.try_add("/:", 3).is_err());
    assert_eq!(router.len(), 1);
    assert_eq!(router.patterns(), ["/a/*"]);
    assert_eq!(*router.best_match("/a/b").unwrap(), 1);
}
