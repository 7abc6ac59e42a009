use iso_render::dispatch::{
    dispatch_request, handle_request, handle_url, server_app, DispatchError, EdgeResponse,
    ProducerOutcome, RequestError, ResponseBody, ServerAppProps, StaticAssets,
};
use iso_render::hydrate::{bootstrap, BootstrapMode};
use iso_render::render::Chunk;

fn pairs(ps: &[(&str, &str)]) -> Vec<(String, String)> {
    ps.iter().map(|(k, v)| (k.to_string(), v.to_string())).collect()
}

fn assets() -> StaticAssets {
    StaticAssets {
        js: b"console.log('loader');".to_vec(),
        wasm: vec![0x00, 0x61, 0x73, 0x6d, 0x01, 0x00, 0x00, 0x00],
    }
}

const TEMPLATE: &str = "<html><head><script src=\"/client_package.js\"></script></head><body></body></html>";

fn body_html(resp: &EdgeResponse) -> String {
    let mut out = String::new();
    if let ResponseBody::Stream(chunks) = &resp.body {
        for c in chunks {
            if let Chunk::Html(s) = c {
                out.push_str(s);
            }
        }
    }
    out
}

fn body_payload(resp: &EdgeResponse) -> Vec<u8> {
    if let ResponseBody::Stream(chunks) = &resp.body {
        for c in chunks {
            if let Chunk::StatePayload(b) = c {
                return b.clone();
            }
        }
    }
    Vec::new()
}

#[test]
fn get_root_serves_home_with_prepared_state() {
    let ip = "1.2.3.4".to_string();
    let resp = handle_request("/", &pairs(&[]), TEMPLATE, &assets(), &ip).unwrap();
    assert_eq!(resp.status, 200);
    assert_eq!(resp.content_type, "text/html; charset=utf-8");
    let body = body_html(&resp);
    assert!(body.contains("1.2.3.4"));
    assert!(body.contains("Home"));
    assert!(body.contains("/client_package.js"));
}

#[test]
fn get_page2_shows_its_route_and_query() {
    let ip = "1.2.3.4".to_string();
    let q = pairs(&[("x", "1"), ("y", "2")]);
    let resp = handle_request("/page2", &q, TEMPLATE, &assets(), &ip).unwrap();
    assert_eq!(resp.status, 200);
    let body = body_html(&resp);
    assert!(body.contains("Page2"));
    assert!(body.contains("x=1;"));
    assert!(body.contains("y=2;"));
}

#[test]
fn unknown_path_renders_not_found_with_status_200() {
    let ip = "1.2.3.4".to_string();
    let resp = handle_request("/does-not-exist", &pairs(&[]), TEMPLATE, &assets(), &ip).unwrap();
    assert_eq!(resp.status, 200);
    assert!(body_html(&resp).contains("NotFound"));
}

#[test]
fn js_asset_is_served_byte_exact() {
    let ip = "1.2.3.4".to_string();
    let a = assets();
    let resp = handle_request("/client_package.js", &pairs(&[]), TEMPLATE, &a, &ip).unwrap();
    assert_eq!(resp.status, 200);
    assert_eq!(resp.content_type, "application/javascript");
    assert!(matches!(resp.body, ResponseBody::Bytes(b) if b == a.js));
}

#[test]
fn wasm_asset_is_served_byte_exact() {
    let ip = "1.2.3.4".to_string();
    let a = assets();
    let resp = handle_request("/client_package_bg.wasm", &pairs(&[]), TEMPLATE, &a, &ip).unwrap();
    assert_eq!(resp.status, 200);
    assert_eq!(resp.content_type, "application/wasm");
    assert!(matches!(resp.body, ResponseBody::Bytes(b) if b == a.wasm));
}

#[test]
fn full_urls_are_split_and_dispatched() {
    let ip = "1.2.3.4".to_string();
    let resp = handle_url(
        "https://example.com/page2?x=1&y=2",
        TEMPLATE,
        &assets(),
        &ip,
    )
    .unwrap();
    let body = body_html(&resp);
    assert!(body.contains("Page2"));
    assert!(body.contains("x=1;"));
    assert!(body.contains("y=2;"));
}

#[test]
fn unparsable_urls_are_refused() {
    let ip = "1.2.3.4".to_string();
    let r = handle_url("not a url", TEMPLATE, &assets(), &ip);
    assert!(matches!(r, Err(DispatchError::UrlUnparsable)));
}

#[test]
fn server_app_renders_from_its_props() {
    let ip = "1.2.3.4".to_string();
    let props = ServerAppProps {
        url: "/page1".to_string(),
        queries: pairs(&[("a", "b")]),
    };
    let chunks = server_app(&props, TEMPLATE, &ip).unwrap();
    let mut body = String::new();
    for c in &chunks {
        if let Chunk::Html(s) = c {
            body.push_str(s);
        }
    }
    assert!(body.contains("Page1"));
    assert!(body.contains("a=b;"));
}

#[test]
fn hydration_reuses_the_server_value_without_a_live_fetch() {
    let ip = "1.2.3.4".to_string();
    let resp = handle_request("/", &pairs(&[]), TEMPLATE, &assets(), &ip).unwrap();
    let payload = body_payload(&resp);
    let (frags, mode) = bootstrap(&payload, "/", &pairs(&[]), None);
    assert_eq!(mode, BootstrapMode::Hydrated);
    let joined: String = frags.concat();
    assert!(joined.contains("1.2.3.4"));
    assert!(joined.contains("Home"));
}

#[test]
fn hydrated_prepared_leaf_matches_the_server_output() {
    let ip = "10.0.0.9".to_string();
    let q = pairs(&[("x", "1")]);
    let resp = handle_request("/page3", &q, TEMPLATE, &assets(), &ip).unwrap();
    let payload = body_payload(&resp);
    let (frags, mode) = bootstrap(&payload, "/page3", &q, None);
    assert_eq!(mode, BootstrapMode::Hydrated);
    // the prepared leaf was read back, not re-fetched: the value appears
    assert!(frags.concat().contains("10.0.0.9"));
}

#[test]
fn producer_failure_aborts_the_render() {
    let r = dispatch_request(
        "/",
        &pairs(&[]),
        TEMPLATE,
        &assets(),
        &ProducerOutcome::TransportError,
    );
    assert!(matches!(r, Err(RequestError::ProducerFailure)));
}

#[test]
fn assets_are_served_even_when_the_producer_fails() {
    let a = assets();
    let r = dispatch_request(
        "/client_package.js",
        &pairs(&[]),
        TEMPLATE,
        &a,
        &ProducerOutcome::TransportError,
    )
    .unwrap();
    assert_eq!(r.content_type, "application/javascript");
    assert!(matches!(r.body, ResponseBody::Bytes(b) if b == a.js));
}

#[test]
fn producer_value_renders_the_page() {
    let r = dispatch_request(
        "/",
        &pairs(&[]),
        TEMPLATE,
        &assets(),
        &ProducerOutcome::Value("1.2.3.4".to_string()),
    )
    .unwrap();
    assert!(body_html(&r).contains("1.2.3.4"));
}

#[test]
fn malformed_template_surfaces_through_dispatch() {
    let r = dispatch_request(
        "/",
        &pairs(&[]),
        "<html>no marker</html>",
        &assets(),
        &ProducerOutcome::Value("1.2.3.4".to_string()),
    );
    assert!(matches!(r, Err(RequestError::TemplateMalformed)));
}

#[test]
fn embedded_payload_is_keyed_by_render_position() {
    let ip = "1.2.3.4".to_string();
    let resp = handle_request("/", &pairs(&[]), TEMPLATE, &assets(), &ip).unwrap();
    let payload = body_payload(&resp);
    let reg = iso_render::codec::deserialize(&payload).unwrap();
    assert_eq!(reg.len(), 1);
    assert_eq!(reg.get("2.0"), Some("1.2.3.4".to_string()));
    assert_eq!(reg.get("0"), None);
}

#[test]
fn malformed_payload_falls_back_to_full_client_render() {
    let garbage = vec![9u8, 9, 9];
    let live = "5.6.7.8".to_string();
    let (frags, mode) = bootstrap(&garbage, "/", &pairs(&[]), Some(&live));
    assert_eq!(mode, BootstrapMode::FullClientRender);
    let joined: String = frags.concat();
    assert!(joined.contains("5.6.7.8"));
    assert!(joined.contains("Home"));
}

#[test]
fn client_without_prepared_state_or_live_value_shows_the_fallback() {
    let empty_payload: Vec<u8> = Vec::new();
    let (frags, mode) = bootstrap(&empty_payload, "/page1", &pairs(&[]), None);
    assert_eq!(mode, BootstrapMode::FullClientRender);
    assert!(frags.concat().contains("loading..."));
}
