//! The route table: a total map from URL path to a route tag.
//!
//! Matching is exact on the path component; query and fragment never reach
//! this table.  Every path that no listed rule claims falls to the
//! distinguished `NotFound` tag, so resolution never fails.

use vstd::prelude::*;

use crate::str_eq;

verus! {

/// The closed set of pages, with the distinguished not-found member.
#[derive(PartialEq, Eq, Structural, Clone, Copy, Debug)]
pub enum RouteTag {
    Home,
    Page1,
    Page2,
    Page3,
    NotFound,
}

/// The route table as a total function on path character sequences.
pub open spec fn route_of(path: Seq<char>) -> RouteTag {
    if path == "/"@ {
        RouteTag::Home
    } else if path == "/page1"@ {
        RouteTag::Page1
    } else if path == "/page2"@ {
        RouteTag::Page2
    } else if path == "/page3"@ {
        RouteTag::Page3
    } else {
        RouteTag::NotFound
    }
}

/// Resolves a path to its route tag; total, never fails.
pub fn resolve(path: &str) -> (t: RouteTag)
    ensures
        t == route_of(path@),
{
    if str_eq(path, "/") {
        RouteTag::Home
    } else if str_eq(path, "/page1") {
        RouteTag::Page1
    } else if str_eq(path, "/page2") {
        RouteTag::Page2
    } else if str_eq(path, "/page3") {
        RouteTag::Page3
    } else {
        RouteTag::NotFound
    }
}

/// The debug rendering of a route tag, as the view embeds it.
pub open spec fn spec_route_name(t: RouteTag) -> Seq<char> {
    match t {
        RouteTag::Home => "Home"@,
        RouteTag::Page1 => "Page1"@,
        RouteTag::Page2 => "Page2"@,
        RouteTag::Page3 => "Page3"@,
        RouteTag::NotFound => "NotFound"@,
    }
}

/// Returns the debug rendering of a route tag.
pub fn route_name(t: RouteTag) -> (r: String)
    ensures
        r@ == spec_route_name(t),
{
    match t {
        RouteTag::Home => String::from_str("Home"),
        RouteTag::Page1 => String::from_str("Page1"),
        RouteTag::Page2 => String::from_str("Page2"),
        RouteTag::Page3 => String::from_str("Page3"),
        RouteTag::NotFound => String::from_str("NotFound"),
    }
}

/// Routing is total: every path resolves to one of the five tags, and any
/// path that no listed rule matches resolves to `NotFound`.
pub proof fn lemma_route_totality(path: Seq<char>)
    ensures
        route_of(path) == RouteTag::Home || route_of(path) == RouteTag::Page1 || route_of(path)
            == RouteTag::Page2 || route_of(path) == RouteTag::Page3 || route_of(path)
            == RouteTag::NotFound,
        path != "/"@ && path != "/page1"@ && path != "/page2"@ && path != "/page3"@ ==> route_of(
            path,
        ) == RouteTag::NotFound,
{
}

} // verus!
