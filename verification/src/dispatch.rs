//! The edge dispatcher: the HTTP entry decision.  The two embedded static
//! assets are served under their exact paths with their exact content types;
//! every other path goes to the server renderer with the parsed, collapsed
//! query.

use vstd::prelude::*;
use vstd::slice::slice_to_vec;

use crate::query::{collapse, spec_collapse};
use crate::registry::entry_views;
use crate::render::{
    chunk_views, marker_at, render_document, spec_document, Chunk, RenderError,
};
use crate::route::route_of;
use crate::str_eq;

verus! {

/// The two artifacts the deployment embeds: the JavaScript loader and the
/// WebAssembly binary.
pub struct StaticAssets {
    pub js: Vec<u8>,
    pub wasm: Vec<u8>,
}

/// A response body: raw asset bytes, or the rendered chunk stream.
pub enum ResponseBody {
    Bytes(Vec<u8>),
    Stream(Vec<Chunk>),
}

/// What the dispatcher answers a request with.
pub struct EdgeResponse {
    pub status: u16,
    pub content_type: String,
    pub body: ResponseBody,
}

/// The loader's path.
pub open spec fn is_js_path(p: Seq<char>) -> bool {
    p == "/client_package.js"@
}

/// The binary's path.
pub open spec fn is_wasm_path(p: Seq<char>) -> bool {
    p == "/client_package_bg.wasm"@
}

/// The dispatch table's promise for a successful answer.
pub open spec fn spec_dispatch_ok(
    path: Seq<char>,
    q: Seq<(Seq<char>, Seq<char>)>,
    template: Seq<char>,
    js: Seq<u8>,
    wasm: Seq<u8>,
    producer_value: Seq<char>,
    resp: EdgeResponse,
) -> bool {
    if is_js_path(path) {
        &&& resp.status == 200
        &&& resp.content_type@ == "application/javascript"@
        &&& resp.body matches ResponseBody::Bytes(b) && b@ == js
    } else if is_wasm_path(path) {
        &&& resp.status == 200
        &&& resp.content_type@ == "application/wasm"@
        &&& resp.body matches ResponseBody::Bytes(b) && b@ == wasm
    } else {
        &&& resp.status == 200
        &&& resp.content_type@ == "text/html; charset=utf-8"@
        &&& resp.body matches ResponseBody::Stream(chunks) && exists|i: int|
            {
                &&& #[trigger] marker_at(template, i)
                &&& chunk_views(chunks@) == spec_document(
                    route_of(path),
                    spec_collapse(q),
                    producer_value,
                    template.subrange(0, i + 6),
                    template.subrange(i + 6, template.len() as int),
                )
            }
    }
}

/// When the dispatcher fails: the path was no asset and the template holds
/// no body marker.
pub open spec fn spec_dispatch_err(path: Seq<char>, template: Seq<char>) -> bool {
    &&& !is_js_path(path)
    &&& !is_wasm_path(path)
    &&& forall|i: int| !marker_at(template, i)
}

/// Decides one request: the two asset paths answer with their embedded
/// bytes and exact content types, any other path streams the rendered
/// document over the collapsed query.
pub fn handle_request(
    path: &str,
    q: &Vec<(String, String)>,
    template: &str,
    assets: &StaticAssets,
    producer_value: &String,
) -> (r: Result<EdgeResponse, RenderError>)
    ensures
        match r {
            Ok(resp) => spec_dispatch_ok(
                path@,
                entry_views(q@),
                template@,
                assets.js@,
                assets.wasm@,
                producer_value@,
                resp,
            ),
            Err(e) => e == RenderError::TemplateMalformed && spec_dispatch_err(path@, template@),
        },
{
    if str_eq(path, "/client_package.js") {
        return Ok(
            EdgeResponse {
                status: 200,
                content_type: String::from_str("application/javascript"),
                body: ResponseBody::Bytes(slice_to_vec(assets.js.as_slice())),
            },
        );
    }
    if str_eq(path, "/client_package_bg.wasm") {
        return Ok(
            EdgeResponse {
                status: 200,
                content_type: String::from_str("application/wasm"),
                body: ResponseBody::Bytes(slice_to_vec(assets.wasm.as_slice())),
            },
        );
    }
    let registry_pairs = collapse(q);
    let chunks = match render_document(path, &registry_pairs, template, producer_value) {
        Ok(c) => c,
        Err(e) => {
            return Err(e);
        },
    };
    Ok(
        EdgeResponse {
            status: 200,
            content_type: String::from_str("text/html; charset=utf-8"),
            body: ResponseBody::Stream(chunks),
        },
    )
}

/// The outcome of the prepared-state producer's outbound call, as the
/// surrounding layer reports it.
pub enum ProducerOutcome {
    Value(String),
    TransportError,
}

/// Why a request could not be answered; the response layer surfaces either
/// as an internal-error response.
#[derive(PartialEq, Eq, Structural, Clone, Copy, Debug)]
pub enum RequestError {
    /// The document template holds no opening body marker.
    TemplateMalformed,
    /// The prepared-state producer's outbound call failed; the render is
    /// aborted, nothing past the failing leaf is emitted.
    ProducerFailure,
}

/// The full request decision including the producer's outcome.  An asset
/// path is served without consulting the producer; a page render aborts
/// with `ProducerFailure` exactly when the outbound call failed, and with
/// `TemplateMalformed` exactly when the template holds no body marker.
pub fn dispatch_request(
    path: &str,
    q: &Vec<(String, String)>,
    template: &str,
    assets: &StaticAssets,
    producer: &ProducerOutcome,
) -> (r: Result<EdgeResponse, RequestError>)
    ensures
        match r {
            Ok(resp) => {
                &&& producer matches ProducerOutcome::Value(v) ==> spec_dispatch_ok(
                    path@,
                    entry_views(q@),
                    template@,
                    assets.js@,
                    assets.wasm@,
                    v@,
                    resp,
                )
                &&& producer matches ProducerOutcome::TransportError ==> (is_js_path(path@)
                    || is_wasm_path(path@))
            },
            Err(e) => {
                &&& !is_js_path(path@) && !is_wasm_path(path@)
                &&& (e == RequestError::ProducerFailure <==> (producer matches
                    ProducerOutcome::TransportError))
                &&& (e == RequestError::TemplateMalformed ==> spec_dispatch_err(path@, template@))
            },
        },
        r is Ok <==> is_js_path(path@) || is_wasm_path(path@) || (producer matches
            ProducerOutcome::Value(v) && (exists|i: int| marker_at(template@, i))),
{
    if str_eq(path, "/client_package.js") || str_eq(path, "/client_package_bg.wasm") {
        let any_value = String::new();
        match handle_request(path, q, template, assets, &any_value) {
            Ok(resp) => {
                return Ok(resp);
            },
            Err(_) => {
                proof {
                    assert(false);
                }
                return Err(RequestError::TemplateMalformed);
            },
        }
    }
    let value = match producer {
        ProducerOutcome::Value(v) => v,
        ProducerOutcome::TransportError => {
            return Err(RequestError::ProducerFailure);
        },
    };
    match handle_request(path, q, template, assets, value) {
        Ok(resp) => Ok(resp),
        Err(RenderError::TemplateMalformed) => Err(RequestError::TemplateMalformed),
    }
}

/// The server-side application's input: the requested path and the query
/// mapping the dispatcher parsed for it.
pub struct ServerAppProps {
    pub url: String,
    pub queries: Vec<(String, String)>,
}

/// The server-side application: renders the complete document for its
/// props.  The query mapping is taken as the dispatcher prepared it.
pub fn server_app(
    props: &ServerAppProps,
    template: &str,
    producer_value: &String,
) -> (r: Result<Vec<Chunk>, RenderError>)
    ensures
        match r {
            Ok(chunks) => exists|i: int|
                {
                    &&& #[trigger] marker_at(template@, i)
                    &&& chunk_views(chunks@) == spec_document(
                        route_of(props.url@),
                        entry_views(props.queries@),
                        producer_value@,
                        template@.subrange(0, i + 6),
                        template@.subrange(i + 6, template@.len() as int),
                    )
                },
            Err(e) => e == RenderError::TemplateMalformed && (forall|i: int|
                !marker_at(template@, i)),
        },
{
    render_document(props.url.as_str(), &props.queries, template, producer_value)
}

/// A parse-failure of the request URL; the surrounding layer answers it as
/// an internal error.
#[derive(PartialEq, Eq, Structural, Clone, Copy, Debug)]
pub enum DispatchError {
    UrlUnparsable,
    TemplateMalformed,
}

/// Whether the URL parser accepts this string as an absolute URL.
pub uninterp spec fn url_parses(s: Seq<char>) -> bool;

/// The path component of a parsed URL.
pub uninterp spec fn url_path_of(s: Seq<char>) -> Seq<char>;

/// The decoded query pairs of a parsed URL, in order, duplicates kept.
pub uninterp spec fn url_query_pairs_of(s: Seq<char>) -> Seq<(Seq<char>, Seq<char>)>;

/// Relies on `url::Url::parse`, `Url::path` and `Url::query_pairs`: parsing
/// either fails or yields the URL's path and its decoded query pairs in
/// order, all as pure functions of the input string.
#[verifier::external_body]
fn split_request_url(s: &str) -> (r: Option<(String, Vec<(String, String)>)>)
    ensures
        r is Some <==> url_parses(s@),
        match r {
            Some(pq) => pq.0@ == url_path_of(s@) && entry_views(pq.1@) == url_query_pairs_of(s@),
            None => true,
        },
{
    match url::Url::parse(s) {
        Ok(u) => {
            let pairs = u.query_pairs().map(|(k, v)| (k.into_owned(), v.into_owned())).collect();
            Some((u.path().to_string(), pairs))
        },
        Err(_) => None,
    }
}

/// Decides one request from its full URL: splits it into path and query
/// pairs and dispatches; an unparsable URL is refused.
pub fn handle_url(
    url: &str,
    template: &str,
    assets: &StaticAssets,
    producer_value: &String,
) -> (r: Result<EdgeResponse, DispatchError>)
    ensures
        r is Err && r->Err_0 == DispatchError::UrlUnparsable <==> !url_parses(url@),
        match r {
            Ok(resp) => url_parses(url@) && spec_dispatch_ok(
                url_path_of(url@),
                url_query_pairs_of(url@),
                template@,
                assets.js@,
                assets.wasm@,
                producer_value@,
                resp,
            ),
            Err(e) => e == DispatchError::UrlUnparsable || (e == DispatchError::TemplateMalformed
                && spec_dispatch_err(url_path_of(url@), template@)),
        },
{
    let (path, pairs) = match split_request_url(url) {
        Some(pq) => pq,
        None => {
            return Err(DispatchError::UrlUnparsable);
        },
    };
    match handle_request(path.as_str(), &pairs, template, assets, producer_value) {
        Ok(resp) => Ok(resp),
        Err(RenderError::TemplateMalformed) => Err(DispatchError::TemplateMalformed),
    }
}

} // verus!
