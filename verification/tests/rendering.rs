use iso_render::counter::Counter;
use iso_render::query::{collapse, query_get};
use iso_render::render::{render_document, split_template, Chunk, RenderError};
use iso_render::view::{digits, position_key, prepared_ip_key};

fn pairs(ps: &[(&str, &str)]) -> Vec<(String, String)> {
    ps.iter().map(|(k, v)| (k.to_string(), v.to_string())).collect()
}

fn html_of(chunks: &[Chunk]) -> String {
    let mut out = String::new();
    for c in chunks {
        if let Chunk::Html(s) = c {
            out.push_str(s);
        }
    }
    out
}

const TEMPLATE: &str = "<html><head><title>demo</title></head><body><script src=\"/client_package.js\"></script></body></html>";

#[test]
fn template_splits_at_the_body_marker() {
    let (prologue, epilogue) = split_template(TEMPLATE).unwrap();
    assert!(prologue.ends_with("<body>"));
    assert_eq!(format!("{prologue}{epilogue}"), TEMPLATE);
    assert_eq!(epilogue, "<script src=\"/client_package.js\"></script></body></html>");
}

#[test]
fn template_splits_at_the_first_marker_only() {
    let (prologue, epilogue) = split_template("a<body>b<body>c").unwrap();
    assert_eq!(prologue, "a<body>");
    assert_eq!(epilogue, "b<body>c");
}

#[test]
fn template_without_marker_is_malformed() {
    assert_eq!(
        split_template("<html><head></head></html>").unwrap_err(),
        RenderError::TemplateMalformed
    );
    assert_eq!(split_template("").unwrap_err(), RenderError::TemplateMalformed);
}

#[test]
fn document_starts_with_prologue_and_ends_with_epilogue() {
    let q = pairs(&[]);
    let ip = "1.2.3.4".to_string();
    let chunks = render_document("/", &q, TEMPLATE, &ip).unwrap();
    assert!(matches!(&chunks[0], Chunk::Html(s) if s.ends_with("<body>")));
    assert!(matches!(
        chunks.last().unwrap(),
        Chunk::Html(s) if s == "<script src=\"/client_package.js\"></script></body></html>"
    ));
    let payloads: Vec<&Chunk> = chunks
        .iter()
        .filter(|c| matches!(c, Chunk::StatePayload(_)))
        .collect();
    assert_eq!(payloads.len(), 1);
    assert!(matches!(&chunks[chunks.len() - 2], Chunk::StatePayload(_)));
}

#[test]
fn document_consumes_prepared_state() {
    let q = pairs(&[]);
    let ip = "1.2.3.4".to_string();
    let chunks = render_document("/", &q, TEMPLATE, &ip).unwrap();
    let body = html_of(&chunks);
    assert!(body.contains("1.2.3.4"));
    assert!(body.contains("Home"));
    assert!(body.contains("this value was constructed during server-side rendering"));
}

#[test]
fn document_render_is_deterministic() {
    let q = pairs(&[("x", "1")]);
    let ip = "1.2.3.4".to_string();
    let first = render_document("/page1", &q, TEMPLATE, &ip).unwrap();
    let second = render_document("/page1", &q, TEMPLATE, &ip).unwrap();
    assert_eq!(html_of(&first), html_of(&second));
}

#[test]
fn malformed_template_aborts_the_render() {
    let q = pairs(&[]);
    let ip = "1.2.3.4".to_string();
    let err = render_document("/", &q, "<html>no marker</html>", &ip).unwrap_err();
    assert_eq!(err, RenderError::TemplateMalformed);
}

#[test]
fn counter_three_clicks_show_three() {
    let mut c = Counter::new();
    assert_eq!(c.current(), 0);
    assert_eq!(c.display(), "0");
    c.click();
    c.click();
    c.click();
    assert_eq!(c.current(), 3);
    assert_eq!(c.display(), "3");
}

#[test]
fn decimal_rendering_is_exact() {
    assert_eq!(digits(0), "0");
    assert_eq!(digits(7), "7");
    assert_eq!(digits(10), "10");
    assert_eq!(digits(120), "120");
    assert_eq!(digits(98765), "98765");
}

#[test]
fn prepared_keys_come_from_tree_positions() {
    assert_eq!(position_key(&vec![2, 0]), "2.0");
    assert_eq!(position_key(&vec![0]), "0");
    assert_eq!(position_key(&vec![]), "");
    assert_eq!(position_key(&vec![12, 3, 4]), "12.3.4");
    assert_eq!(prepared_ip_key(), "2.0");
}

#[test]
fn query_last_write_wins() {
    let q = pairs(&[("x", "1"), ("y", "2"), ("x", "3")]);
    assert_eq!(query_get(&q, "x"), Some("3".to_string()));
    assert_eq!(query_get(&q, "y"), Some("2".to_string()));
    assert_eq!(query_get(&q, "z"), None);
}

#[test]
fn collapse_keeps_first_position_and_last_value() {
    let q = pairs(&[("x", "1"), ("y", "2"), ("x", "3")]);
    let c = collapse(&q);
    assert_eq!(c, pairs(&[("x", "3"), ("y", "2")]));
}

#[test]
fn collapse_of_unique_keys_is_identity() {
    let q = pairs(&[("a", "1"), ("b", "2")]);
    assert_eq!(collapse(&q), q);
}
