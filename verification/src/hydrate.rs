//! The client bootstrapper: on document load it decodes the embedded
//! prepared-state payload, rebuilds the view for the current location, and
//! adopts the server's DOM.  A payload that fails to decode is discarded and
//! the client falls back to a full client-side render with an empty
//! registry.

use vstd::prelude::*;

use crate::codec::{
    dec_registry, deserialize, enc_registry, lemma_registry_round_trip,
};
use crate::registry::{lookup, unique_keys, Registry};
use crate::route::{resolve, route_of, RouteTag};
use crate::view::{
    client_view, spec_client_only_leaf, spec_live_view, spec_prepared_ip_key, spec_prepared_leaf,
    spec_view_frags,
};

verus! {

/// How the client came up: adopting the server DOM, or rebuilding it after
/// discarding an unreadable payload.
#[derive(PartialEq, Eq, Structural, Clone, Copy, Debug)]
pub enum BootstrapMode {
    Hydrated,
    FullClientRender,
}

/// The prepared-state the client works from: the decoded payload, or
/// nothing when the payload is unreadable.
pub open spec fn spec_bootstrap_registry(payload: Seq<u8>) -> Seq<(Seq<char>, Seq<char>)> {
    match dec_registry(payload) {
        Some(m) => m,
        None => Seq::empty(),
    }
}

/// Rebuilds the client's view of the document from the embedded payload and
/// the current location.  A well-formed payload is adopted (`Hydrated`); a
/// malformed one is discarded and the render proceeds from an empty registry
/// (`FullClientRender`).
pub fn bootstrap(
    payload: &Vec<u8>,
    path: &str,
    q: &Vec<(String, String)>,
    live: Option<&String>,
) -> (r: (Vec<String>, BootstrapMode))
    ensures
        r.1 == BootstrapMode::Hydrated <==> dec_registry(payload@) is Some,
        crate::frag_views(r.0@) == spec_view_frags(
            route_of(path@),
            crate::registry::entry_views(q@),
            spec_prepared_leaf(spec_bootstrap_registry(payload@), spec_live_view(live)),
            spec_client_only_leaf(spec_live_view(live)),
        ),
{
    let tag = resolve(path);
    match deserialize(payload) {
        Ok(reg) => {
            let frags = client_view(tag, q, &reg, live);
            (frags, BootstrapMode::Hydrated)
        },
        Err(_) => {
            let reg = Registry::begin_render();
            let frags = client_view(tag, q, &reg, live);
            (frags, BootstrapMode::FullClientRender)
        },
    }
}

/// Hydration fidelity: for any path and query, the fragments the client
/// builds from the payload a server render embedded are exactly the
/// fragments of a fresh client render given the same prepared state — the
/// producer's value is read back under its key, never recomputed.
pub proof fn lemma_hydration_fidelity(
    tag: RouteTag,
    q: Seq<(Seq<char>, Seq<char>)>,
    producer_value: Seq<char>,
    live: Option<Seq<char>>,
)
    requires
        producer_value.len() < 0x10000000000000000,
    ensures
        spec_bootstrap_registry(
            enc_registry(crate::render::spec_render_registry(producer_value)),
        ) == crate::render::spec_render_registry(producer_value),
        spec_view_frags(
            tag,
            q,
            spec_prepared_leaf(
                spec_bootstrap_registry(
                    enc_registry(crate::render::spec_render_registry(producer_value)),
                ),
                live,
            ),
            spec_client_only_leaf(live),
        ) == spec_view_frags(tag, q, producer_value, spec_client_only_leaf(live)),
{
    let reg = crate::render::spec_render_registry(producer_value);
    assert(unique_keys(reg));
    assert(spec_prepared_ip_key().len() == 3) by {
        assert(seq![2usize, 0usize].drop_last() =~= seq![2usize]);
        assert(crate::view::spec_position_key(seq![2usize]) == crate::view::spec_digits(2));
        assert(crate::view::spec_digits(2).len() == 1);
        assert(crate::view::spec_digits(0).len() == 1);
        assert(spec_prepared_ip_key() == crate::view::spec_position_key(seq![2usize]) + seq!['.']
            + crate::view::spec_digits(0));
    }
    assert(reg[0] == (spec_prepared_ip_key(), producer_value));
    assert(crate::codec::encodable(reg));
    lemma_registry_round_trip(reg);
    assert(lookup(reg, spec_prepared_ip_key()) == Some(producer_value));
}

} // verus!
