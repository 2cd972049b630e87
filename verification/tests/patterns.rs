use routefinder::route_spec::measure;
use routefinder::{ParseError, RouteSpec, Segment};
use std::cmp::Ordering;

fn exact(text: &str) -> Segment {
    Segment::Exact(String::from(text))
}

fn param(name: &str) -> Segment {
    Segment::Param(String::from(name))
}

fn parsed(pattern: &str) -> RouteSpec {
    RouteSpec::parse(pattern).unwrap()
}

#[test]
fn segments_of_a_pattern() {
    assert_eq!(
        parsed("/hello/:planet/*").segments(),
        [
            exact("hello"),
            Segment::Slash,
            param("planet"),
            Segment::Slash,
            Segment::Wildcard
        ]
    );
    assert_eq!(
        parsed("/users/:id/posts/*").segments(),
        [
            exact("users"),
            Segment::Slash,
            param("id"),
            Segment::Slash,
            exact("posts"),
            Segment::Slash,
            Segment::Wildcard
        ]
    );
    assert_eq!(
        parsed("/:a.:b").segments(),
        [param("a"), Segment::Dot, param("b")]
    );
    assert_eq!(
        parsed("/static/*").segments(),
        [exact("static"), Segment::Slash, Segment::Wildcard]
    );
}

#[test]
fn empty_patterns_have_no_segments() {
    assert!(parsed("").segments().is_empty());
    assert!(parsed("/").segments().is_empty());
    assert!(parsed("///").segments().is_empty());
}

#[test]
fn outer_and_repeated_slashes_of_a_pattern_do_not_count() {
    let plain = parsed("a/b");
    assert_eq!(
        plain.segments(),
        [exact("a"), Segment::Slash, exact("b")]
    );
    assert!(parsed("/a/b") == plain);
    assert!(parsed("a/b/") == plain);
    assert!(parsed("//a///b//") == plain);
}

#[test]
fn a_dot_after_literal_text_is_literal_text() {
    assert_eq!(parsed("a.hello").segments(), [exact("a.hello")]);
    assert_eq!(parsed("a..b").segments(), [exact("a..b")]);
    assert_eq!(parsed("file.tar.gz").segments(), [exact("file.tar.gz")]);
    assert_eq!(parsed("a.:b").segments(), [exact("a."), param("b")]);
    assert_eq!(parsed("a.").segments(), [exact("a.")]);
    assert_eq!(
        parsed("a.*").segments(),
        [exact("a."), Segment::Wildcard]
    );
}

#[test]
fn a_dot_after_anything_else_is_a_segment() {
    assert_eq!(
        parsed(":a.txt").segments(),
        [param("a"), Segment::Dot, exact("txt")]
    );
    assert_eq!(parsed(".a").segments(), [Segment::Dot, exact("a")]);
    assert_eq!(parsed(":a.").segments(), [param("a"), Segment::Dot]);
    assert_eq!(
        parsed(":a..b").segments(),
        [param("a"), Segment::Dot, Segment::Dot, exact("b")]
    );
    assert_eq!(
        parsed("/:a/:b.:c").segments(),
        [
            param("a"),
            Segment::Slash,
            param("b"),
            Segment::Dot,
            param("c")
        ]
    );
}

#[test]
fn text_that_is_not_ascii() {
    assert_eq!(
        parsed("/caf\u{e9}/:\u{65e5}\u{672c}").segments(),
        [
            exact("caf\u{e9}"),
            Segment::Slash,
            param("\u{65e5}\u{672c}")
        ]
    );
}

#[test]
fn named_wildcard_is_refused() {
    match RouteSpec::parse("*named_star") {
        Err(ParseError::NamedWildcard(section)) => assert_eq!(section, "*named_star"),
        other => panic!("unexpected {:?}", other),
    }
    assert_eq!(
        RouteSpec::parse("/a/*b/c").unwrap_err().to_string(),
        "since there can only be one wildcard, it doesn't need a name. replace `*b` with `*`"
    );
}

#[test]
fn unnamed_param_is_refused() {
    assert!(matches!(
        RouteSpec::parse(":"),
        Err(ParseError::UnnamedParam)
    ));
    assert!(matches!(
        RouteSpec::parse("/a/:/b"),
        Err(ParseError::UnnamedParam)
    ));
    assert_eq!(
        RouteSpec::parse("/a/:.b").unwrap_err().to_string(),
        "params must be named"
    );
}

#[test]
fn the_first_refused_section_decides() {
    assert!(matches!(
        RouteSpec::parse("/:/*x"),
        Err(ParseError::UnnamedParam)
    ));
    assert!(matches!(
        RouteSpec::parse("/*x/:"),
        Err(ParseError::NamedWildcard(_))
    ));
}

#[test]
fn source_is_kept() {
    assert_eq!(parsed("/a/:b/").source(), Some("/a/:b/"));
    assert_eq!(parsed("").source(), Some(""));
    assert_eq!(
        RouteSpec::from_segments(vec![exact("a")]).source(),
        None
    );
    assert_eq!(RouteSpec::from(vec![exact("a")]).source(), None);
}

#[test]
fn a_copy_is_equal_and_keeps_the_source() {
    let route = parsed("/a/:b.:c/*");
    let copy = route.clone();
    assert!(copy == route);
    assert_eq!(copy.source(), Some("/a/:b.:c/*"));
    assert_eq!(copy.segments(), route.segments());
}

#[test]
fn equality_is_by_segments() {
    assert!(parsed("/a/:b") == parsed("a/:b/"));
    assert!(parsed("/a/:b") == RouteSpec::from_segments(vec![exact("a"), Segment::Slash, param("b")]));
    assert!(parsed("/a/:b") != parsed("/a/:c"));
    assert!(parsed("/a") != parsed("/b"));
}

#[test]
fn written_as_a_pattern() {
    assert_eq!(parsed("/hello/:planet/*").to_string(), "/hello/:planet/*");
    assert_eq!(parsed("a/b/").to_string(), "/a/b");
    assert_eq!(parsed(":a.:b").to_string(), "/:a.:b");
    assert_eq!(parsed("").to_string(), "/");
    assert_eq!(parsed("*").to_string(), "/*");
}

#[test]
fn least_length_and_dots() {
    // "users" + "/" + one for the param + "/" + "posts" + "/", less one
    // for the trailing wildcard
    let route = parsed("/users/:id/posts/*");
    assert_eq!(measure(&route.segments().to_vec()), (13, 0));
    assert_eq!(route.dots(), 0);

    assert_eq!(measure(&parsed(":a.:b").segments().to_vec()), (3, 1));
    assert_eq!(parsed(":a.:b.:c").dots(), 2);
    assert_eq!(measure(&parsed("a.b").segments().to_vec()), (3, 0));
    assert_eq!(measure(&parsed("*").segments().to_vec()), (0, 0));
    assert_eq!(measure(&parsed("").segments().to_vec()), (0, 0));
    assert_eq!(measure(&parsed("/a/b/c").segments().to_vec()), (5, 0));
}

#[test]
fn least_length_ignores_slashes_at_the_ends() {
    assert_eq!(measure(&vec![Segment::Slash, exact("ab")]), (1, 0));
    assert_eq!(measure(&vec![exact("ab"), Segment::Slash]), (2, 0));
    assert_eq!(
        measure(&vec![exact("ab"), Segment::Slash, Segment::Wildcard]),
        (2, 0)
    );
    assert_eq!(measure(&vec![Segment::Slash]), (0, 0));
    assert_eq!(measure(&vec![Segment::Dot]), (1, 1));
}

#[test]
fn well_formed_routes() {
    assert!(parsed("/a/:b.:c/*").is_well_formed());
    assert!(parsed("").is_well_formed());
    assert!(!parsed("/*/a").is_well_formed());
    assert!(!parsed("*.a").is_well_formed());
    assert!(!RouteSpec::from_segments(vec![param("a"), exact("b")]).is_well_formed());
    assert!(!RouteSpec::from_segments(vec![param("a"), param("b")]).is_well_formed());
    assert!(!RouteSpec::from_segments(vec![param("a"), Segment::Wildcard]).is_well_formed());
    assert!(RouteSpec::from_segments(vec![param("a"), Segment::Slash]).is_well_formed());
}

#[test]
fn segments_rank_by_kind() {
    assert_eq!(exact("a").rank(), 3);
    assert_eq!(param("a").rank(), 2);
    assert_eq!(Segment::Wildcard.rank(), 1);
    assert_eq!(Segment::Slash.rank(), 0);
    assert_eq!(Segment::Dot.rank(), 0);

    assert_eq!(exact("a").cmp(&param("a")), Ordering::Greater);
    assert_eq!(param("a").cmp(&exact("a")), Ordering::Less);
    assert_eq!(param("a").cmp(&Segment::Wildcard), Ordering::Greater);
    assert_eq!(Segment::Wildcard.cmp(&Segment::Slash), Ordering::Greater);
    assert_eq!(Segment::Slash.cmp(&Segment::Dot), Ordering::Equal);
    assert_eq!(Segment::Dot.cmp(&Segment::Slash), Ordering::Equal);
    assert_eq!(exact("a").cmp(&exact("b")), Ordering::Equal);
    assert_eq!(param("a").cmp(&param("b")), Ordering::Equal);
    assert!(exact("a") > param("a"));
    assert!(Segment::Slash < Segment::Wildcard);
}

#[test]
fn segments_are_equal_by_kind_and_text() {
    assert!(exact("a") == exact("a"));
    assert!(exact("a") != exact("b"));
    assert!(exact("a") != param("a"));
    assert!(param("a") == param("a"));
    assert!(Segment::Slash != Segment::Dot);
    assert!(Segment::Wildcard == Segment::Wildcard);
    assert!(exact("a").clone() == exact("a"));
}

#[test]
fn the_first_difference_in_rank_decides() {
    assert_eq!(parsed("exact").cmp(&parsed(":param")), Ordering::Less);
    assert_eq!(parsed(":param").cmp(&parsed("*")), Ordering::Less);
    assert_eq!(parsed("*").cmp(&parsed("exact")), Ordering::Greater);
    assert_eq!(parsed("/a/:b").cmp(&parsed("/a/*")), Ordering::Less);
    assert_eq!(parsed("/:a/b").cmp(&parsed("/a/:b")), Ordering::Greater);
    assert!(parsed("/a/b").outranks(&parsed("/a/:b")));
    assert!(!parsed("/a/:b").outranks(&parsed("/a/b")));
}

#[test]
fn more_dots_then_more_segments_break_a_tie() {
    assert_eq!(parsed(":a.:b").cmp(&parsed(":a")), Ordering::Less);
    assert_eq!(parsed(":a.:b").cmp(&parsed(":a/:b")), Ordering::Less);
    assert_eq!(parsed(":a/:b").cmp(&parsed(":a")), Ordering::Less);
    assert_eq!(parsed(":a").cmp(&parsed(":a/:b")), Ordering::Greater);
    assert_eq!(parsed("").cmp(&parsed(":a")), Ordering::Greater);
}

#[test]
fn text_does_not_rank() {
    assert_eq!(parsed("/a").cmp(&parsed("/b")), Ordering::Equal);
    assert_eq!(parsed("/:a").cmp(&parsed("/:b")), Ordering::Equal);
    assert_eq!(parsed("/a/:b").cmp(&parsed("/a/:b")), Ordering::Equal);
    assert!(!parsed("/a").outranks(&parsed("/b")));
    assert!(!(parsed("/a") < parsed("/b")));
    assert!(parsed("/a") <= parsed("/b"));
}
