//! A path-pattern router.
//!
//! Route patterns are made of literal text, named parameters (`:name`), an
//! optional trailing wildcard (`*`) and dot-delimited parts such as file
//! extensions. A [`Router`] ranks the patterns by specificity, finds the best
//! pattern for a path, extracts what the parameters captured, and can render a
//! path back from a set of named values.
//!
//! - [`pattern`] is the grammar of patterns, [`segment`] their tokens, and
//!   [`route_spec`] the compiled form of a pattern with its matcher.
//! - [`matching`] says what it means for a route to match a path, [`order`]
//!   which of two routes is the more specific.
//! - [`trie`] is the index that finds the best route for a path, and
//!   [`router`] the set of routes with their handlers; [`router_model`] is
//!   what a router holds, in contracts.
//! - [`captures`], [`route_match`] and [`reverse_match`] are the results:
//!   named values, a match, and a path rendered from values.
//! - [`exact`], [`round_trip`] and [`reach`] hold what is proved of matching,
//!   rendering and the trie beyond the contracts of the functions.
//!
//! All text is reasoned about as UTF-8 bytes: the contracts in this crate speak
//! of `Seq<u8>`, and a `&str` stands for its encoding.

pub mod captures;
pub mod exact;
pub mod matching;
pub mod order;
pub mod pattern;
pub mod reach;
pub mod reverse_match;
pub mod round_trip;
pub mod route;
pub mod route_match;
pub mod route_spec;
pub mod router;
pub mod router_model;
pub mod segment;
pub mod strings;
pub mod text;
pub mod trie;

pub use captures::{Capture, Captures};
pub use pattern::ParseError;
pub use reverse_match::ReverseMatch;
pub use route::Route;
pub use route_match::Match;
pub use route_spec::RouteSpec;
pub use router::Router;
pub use segment::Segment;
pub use trie::{Trie, TrieMatch};
