//! Isomorphic rendering core for a small routed web application.
//!
//! A server renders a routed page to a stream of HTML chunks, storing the
//! results of asynchronous producers in a prepared-state registry that is
//! serialized into the emitted document.  A client later adopts that document:
//! it decodes the registry, rebuilds the same view, and continues as a
//! single-page application.  The modules here hold the route table, the
//! registry and its codec, the view skeleton, the server render pipeline and
//! the edge dispatch decision; request and response plumbing stays outside.

pub mod codec;
pub mod counter;
pub mod dispatch;
pub mod hydrate;
pub mod query;
pub mod registry;
pub mod render;
pub mod route;
pub mod view;

use vstd::prelude::*;

verus! {

/// The character sequences of a sequence of strings.
pub open spec fn frag_views(s: Seq<String>) -> Seq<Seq<char>> {
    s.map_values(|x: String| x@)
}

/// Compares two string slices by their character sequences.
pub fn str_eq(a: &str, b: &str) -> (r: bool)
    ensures
        r == (a@ == b@),
{
    let sa = String::from_str(a);
    let sb = String::from_str(b);
    sa == sb
}

} // verus!
