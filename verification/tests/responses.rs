use webframe::create_html_content;
use webframe::create_http_header;
use webframe::framework::{html_page_key, js_asset_key};
use webframe::http::build_response;
use webframe::FixedResponse;
use webframe::Framework;

const SHELL_HEAD: &str = "<!DOCTYPE html>\n    <html lang=\"en\">\n        <head>\n            <meta charset=\"utf-8\">\n            <title>Hello!</title>\n        </head>\n        <body>\n        ";
const SHELL_TAIL: &str = "\n        </body>\n    </html>\n    ";

#[test]
fn header_has_exact_shape() {
    assert_eq!(
        create_http_header(200, 5, "text/html"),
        "HTTP/1.1 200 OK\r\nContent-Type: text/html\r\nContent-Length: 5\r\n\r\n"
    );
    assert_eq!(
        create_http_header(404, 0, "text/plain"),
        "HTTP/1.1 404 OK\r\nContent-Type: text/plain\r\nContent-Length: 0\r\n\r\n"
    );
}

#[test]
fn content_length_matches_transmitted_body() {
    let r = build_response(200, "text/plain", "hello");
    assert_eq!(r, "HTTP/1.1 200 OK\r\nContent-Type: text/plain\r\nContent-Length: 5\r\n\r\nhello");
    let split: usize = r.find("\r\n\r\n").unwrap();
    let body = &r[split + 4..];
    let length_line = r.lines().find(|l| l.starts_with("Content-Length: ")).unwrap();
    let stated: usize = length_line["Content-Length: ".len()..].parse().unwrap();
    assert_eq!(stated, body.len());
}

#[test]
fn content_length_counts_bytes_not_chars() {
    let r = build_response(200, "text/plain", "h\u{e9}llo");
    assert_eq!(
        r,
        "HTTP/1.1 200 OK\r\nContent-Type: text/plain\r\nContent-Length: 6\r\n\r\nh\u{e9}llo"
    );
}

#[test]
fn composed_document_has_one_script_tag_before_fragment() {
    let doc = create_html_content("<h1>Hi</h1>", Some("/js/index.js"));
    let tag = "<script src=\"/js/index.js\"></script>";
    let expected = format!("{SHELL_HEAD}{tag}\n        <h1>Hi</h1>{SHELL_TAIL}");
    assert_eq!(doc, expected);
    assert_eq!(doc.matches(tag).count(), 1);
    assert!(doc.find(tag).unwrap() < doc.find("<h1>Hi</h1>").unwrap());
}

#[test]
fn composed_document_without_script_has_no_tag() {
    let doc = create_html_content("body", None);
    let expected = format!("{SHELL_HEAD}\n        body{SHELL_TAIL}");
    assert_eq!(doc, expected);
    assert_eq!(doc.matches("<script").count(), 0);
}

#[test]
fn missing_page_serves_fallback_with_status_200() {
    let fw: Framework<FixedResponse> = Framework::new();
    let r = fw
        .create_html_response("/nope", None, Some(String::from("404 page content")))
        .unwrap();
    let doc = create_html_content("404 page content", Some("js/nope.js"));
    let expected = format!("{}{}", create_http_header(200, doc.len(), "text/html"), doc);
    assert_eq!(r, expected);
    assert!(r.starts_with("HTTP/1.1 200 OK\r\n"));
    assert!(r.contains("404 page content"));
}

#[test]
fn present_page_is_served_over_fallback() {
    let fw: Framework<FixedResponse> = Framework::new();
    let r = fw
        .create_html_response(
            "/index",
            Some(String::from("<h1>Hi</h1>")),
            Some(String::from("404 page content")),
        )
        .unwrap();
    let doc = create_html_content("<h1>Hi</h1>", Some("js/index.js"));
    let expected = format!("{}{}", create_http_header(200, doc.len(), "text/html"), doc);
    assert_eq!(r, expected);
    assert!(!r.contains("404 page content"));
}

#[test]
fn page_and_fallback_both_missing_is_fatal() {
    let fw: Framework<FixedResponse> = Framework::new();
    assert_eq!(fw.create_html_response("/nope", None, None), None);
}

#[test]
fn missing_js_asset_serves_empty_body_with_status_200() {
    let fw: Framework<FixedResponse> = Framework::new();
    let r = fw.create_js_response(None);
    assert_eq!(
        r,
        "HTTP/1.1 200 OK\r\nContent-Type: application/javascript\r\nContent-Length: 0\r\n\r\n"
    );
}

#[test]
fn present_js_asset_is_passed_through() {
    let fw: Framework<FixedResponse> = Framework::new();
    let r = fw.create_js_response(Some(String::from("console.log(1);")));
    assert_eq!(
        r,
        "HTTP/1.1 200 OK\r\nContent-Type: application/javascript\r\nContent-Length: 15\r\n\r\nconsole.log(1);"
    );
}

#[test]
fn registered_api_handler_answers() {
    let mut fw: Framework<FixedResponse> = Framework::new();
    fw.register(String::from("ping"), FixedResponse { body: String::from("pong") });
    assert_eq!(fw.create_api_response("ping"), "pong");
}

#[test]
fn registering_a_key_again_replaces_its_handler() {
    let mut fw: Framework<FixedResponse> = Framework::new();
    fw.register(String::from("ping"), FixedResponse { body: String::from("old") });
    fw.register(String::from("ping"), FixedResponse { body: String::from("new") });
    assert_eq!(fw.create_api_response("ping"), "new");
}

#[test]
fn unregistered_api_path_yields_headerless_empty_response() {
    let mut fw: Framework<FixedResponse> = Framework::new();
    fw.register(String::from("ping"), FixedResponse { body: String::from("pong") });
    let r = fw.create_api_response("missing");
    assert_eq!(r, "");
    assert!(!r.contains("HTTP/1.1"));
}

#[test]
fn store_keys_have_exact_shape() {
    assert_eq!(html_page_key("/index"), "pages/index.html");
    assert_eq!(js_asset_key("app.js"), "js/pages/app.js");
}

#[test]
fn decimal_rendering_is_exact() {
    assert_eq!(webframe::decimal::u64_to_decimal(0), "0");
    assert_eq!(webframe::decimal::u64_to_decimal(7), "7");
    assert_eq!(webframe::decimal::u64_to_decimal(1234), "1234");
    assert_eq!(webframe::decimal::u64_to_decimal(1000000), "1000000");
}
