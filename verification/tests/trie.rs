use routefinder::{RouteSpec, Trie, TrieMatch};

fn check(
    routes: &[RouteSpec],
    found: TrieMatch<'_>,
    expected_route: &str,
    expected_matches: &[&str],
    expected_wildcard: Option<&str>,
) {
    assert_eq!(routes[found.route].to_string(), expected_route);
    assert_eq!(found.captures, expected_matches);
    if expected_wildcard.is_some() {
        assert_eq!(found.wildcard, expected_wildcard);
    }
}

#[test]
fn building() {
    let routes: Vec<RouteSpec> = vec![
        "/a/b/c".parse().unwrap(),
        "/a/:b/c".parse().unwrap(),
        "/a/:b".parse().unwrap(),
        "/a/*".parse().unwrap(),
        "/a/:b.:c".parse().unwrap(),
    ];
    let mut trie = Trie::new();
    for (id, route) in routes.iter().enumerate() {
        trie.insert(route, id);
    }

    check(&routes, trie.matches("a/b/c").unwrap(), "/a/b/c", &[], None);
    check(&routes, trie.matches("a/d/c").unwrap(), "/a/:b/c", &["d"], None);
    check(&routes, trie.matches("a/d").unwrap(), "/a/:b", &["d"], None);
    check(
        &routes,
        trie.matches("a/d.1").unwrap(),
        "/a/:b.:c",
        &["d", "1"],
        None,
    );
    check(
        &routes,
        trie.matches("a/b/c/d").unwrap(),
        "/a/*",
        &[],
        Some("b/c/d"),
    );
    check(
        &routes,
        trie.matches("a/b/d").unwrap(),
        "/a/*",
        &[],
        Some("b/d"),
    );
}
