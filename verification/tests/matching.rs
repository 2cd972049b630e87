use routefinder::strings::{substr, trim_str};
use routefinder::text::{find_byte, find_either, same_bytes, skip_slashes, starts_with_at};
use routefinder::text::trim_bounds;
use routefinder::{RouteSpec, Segment};

fn parsed(pattern: &str) -> RouteSpec {
    RouteSpec::parse(pattern).unwrap()
}

#[test]
fn a_literal_route_matches_only_what_spells_it() {
    let route = parsed("/a/b");
    assert_eq!(route.matches("/a/b"), Some(vec![]));
    assert_eq!(route.matches("a/b"), Some(vec![]));
    assert_eq!(route.matches("//a///b//"), Some(vec![]));
    assert_eq!(route.matches("/a/c"), None);
    assert_eq!(route.matches("/a/b/c"), None);
    assert_eq!(route.matches("/a"), None);
    assert_eq!(route.matches("/a/bb"), None);
    assert_eq!(route.matches("/x/a/b"), None);
    assert_eq!(route.matches(""), None);
}

#[test]
fn a_slash_between_segments_needs_a_slash() {
    assert_eq!(parsed("/a/b").matches("/ab"), None);
    assert_eq!(parsed("/:a/b").matches("/xb"), None);
}

#[test]
fn a_slash_before_a_wildcard_may_be_missing() {
    let route = parsed("/a/*");
    assert_eq!(route.matches("/a"), Some(vec![""]));
    assert_eq!(route.matches("/a/"), Some(vec![""]));
    assert_eq!(route.matches("/a/b/c"), Some(vec!["b/c"]));
    assert_eq!(route.matches("/a//b//c/"), Some(vec!["b//c"]));
    assert_eq!(route.matches("/ab"), Some(vec!["b"]));
}

#[test]
fn a_slash_at_the_end_takes_nothing() {
    let route = RouteSpec::from_segments(vec![
        Segment::Exact(String::from("a")),
        Segment::Slash,
    ]);
    assert_eq!(route.matches("/a"), Some(vec![]));
    assert_eq!(route.matches("/a/"), Some(vec![]));
    assert_eq!(route.matches("/a/b"), None);
}

#[test]
fn matching_with_or_without_outer_slashes() {
    for route in [parsed("/a"), parsed("/a/")] {
        assert!(route.matches("/a").is_some());
        assert!(route.matches("/a/").is_some());
        assert!(route.matches("a").is_some());
        assert!(route.matches("//a//").is_some());
    }
    let route = parsed("/:x/y.:z/*");
    for path in ["p/y.q/r/s", "/p/y.q/r/s", "p/y.q/r/s/", "///p/y.q/r/s///"] {
        assert_eq!(route.matches(path), Some(vec!["p", "q", "r/s"]));
    }
}

#[test]
fn a_param_takes_one_component() {
    let route = parsed("/users/:id");
    assert_eq!(route.matches("/users/12"), Some(vec!["12"]));
    assert_eq!(route.matches("/users/a.b"), Some(vec!["a.b"]));
    assert_eq!(route.matches("/users/12/posts"), None);
    assert_eq!(route.matches("/users/"), None);
    assert_eq!(route.matches("/users"), None);
}

#[test]
fn a_param_before_a_dot_stops_at_the_dot() {
    let route = parsed("/:name.:ext");
    assert_eq!(route.matches("/a.txt"), Some(vec!["a", "txt"]));
    assert_eq!(route.matches("/a.tar.gz"), Some(vec!["a", "tar.gz"]));
    assert_eq!(route.matches("/a"), None);
    assert_eq!(route.matches("/a/b.txt"), None);
    assert_eq!(route.matches("/.txt"), Some(vec!["", "txt"]));
}

#[test]
fn a_wildcard_takes_the_rest() {
    assert_eq!(parsed("/*").matches("/hello/world"), Some(vec!["hello/world"]));
    assert_eq!(parsed("*").matches("/"), Some(vec![""]));
    assert_eq!(parsed("*").matches(""), Some(vec![""]));
    assert_eq!(parsed("/a.*").matches("/a.b/c.d"), Some(vec!["b/c.d"]));
}

#[test]
fn a_path_shorter_than_the_least_length_is_refused() {
    let route = parsed("/:a.:b/:c");
    assert_eq!(route.matches("a.//c"), Some(vec!["a", "", "c"]));
    assert_eq!(route.matches("a./c"), None);
    assert_eq!(route.matches("a.b/c"), Some(vec!["a", "b", "c"]));
}

#[test]
fn captures_come_in_the_order_of_the_route() {
    let route = parsed("/:a/x/:b.:c/*");
    assert_eq!(
        route.matches("/1/x/2.3/4/5"),
        Some(vec!["1", "2", "3", "4/5"])
    );
    assert_eq!(
        route.matches("/one/x/two.three/"),
        Some(vec!["one", "two", "three", ""])
    );
}

#[test]
fn matching_text_that_is_not_ascii() {
    let route = parsed("/caf\u{e9}/:dish.:kind/*");
    assert_eq!(
        route.matches("/caf\u{e9}/cr\u{ea}pe.sucr\u{e9}e/\u{65e5}\u{672c}/\u{8a9e}"),
        Some(vec![
            "cr\u{ea}pe",
            "sucr\u{e9}e",
            "\u{65e5}\u{672c}/\u{8a9e}"
        ])
    );
    assert_eq!(route.matches("/cafe/a.b/c"), None);
}

#[test]
fn finding_bytes() {
    assert_eq!(find_byte(b"the quick brown fox", 0, b'k'), 8);
    assert_eq!(find_byte(b"a/b/c", 0, b'/'), 1);
    assert_eq!(find_byte(b"a/b/c", 2, b'/'), 3);
    assert_eq!(find_byte(b"a/b/c", 4, b'/'), 5);
    assert_eq!(find_byte(b"", 0, b'/'), 0);
    assert_eq!(find_either(b"the quick brown fox", 0, b'k', b'q'), 4);
    assert_eq!(find_either(b"a.b/c", 0, b'.', b'/'), 1);
    assert_eq!(find_either(b"a.b/c", 2, b'.', b'/'), 3);
    assert_eq!(find_either(b"abc", 1, b'.', b'/'), 3);
}

#[test]
fn slashes_and_prefixes() {
    assert_eq!(skip_slashes(b"//a/", 0), 2);
    assert_eq!(skip_slashes(b"//a/", 2), 2);
    assert_eq!(skip_slashes(b"//a/", 3), 4);
    assert_eq!(skip_slashes(b"///", 0), 3);
    assert_eq!(trim_bounds(b"//a/b///"), (2, 5));
    assert_eq!(trim_bounds(b"///"), (3, 3));
    assert_eq!(trim_bounds(b""), (0, 0));
    assert_eq!(trim_bounds(b"a"), (0, 1));
    assert!(starts_with_at(b"hello", 1, b"ell"));
    assert!(starts_with_at(b"hello", 5, b""));
    assert!(!starts_with_at(b"hello", 3, b"low"));
    assert!(!starts_with_at(b"hello", 0, b"help"));
    assert!(same_bytes(b"abc", b"abc"));
    assert!(!same_bytes(b"abc", b"abd"));
    assert!(!same_bytes(b"abc", b"ab"));
}

#[test]
fn trimming_and_slicing() {
    assert_eq!(trim_str("//a/b//"), "a/b");
    assert_eq!(trim_str("a"), "a");
    assert_eq!(trim_str("///"), "");
    assert_eq!(trim_str(""), "");
    assert_eq!(trim_str("/\u{e9}/"), "\u{e9}");
    assert_eq!(substr("hello", 1, 3), "el");
    assert_eq!(substr("h\u{e9}llo", 1, 3), "\u{e9}");
    assert_eq!(substr("hello", 2, 2), "");
}
