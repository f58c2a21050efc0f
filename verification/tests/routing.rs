use webframe::request::{parse_request_path, route_request_line};
use webframe::route;
use webframe::Route;

#[test]
fn root_routes_like_index() {
    assert!(route("/") == route("/index"));
    assert!(route("/") == Route::StaticHtml(String::from("/index")));
}

#[test]
fn js_prefix_routes_to_static_js() {
    assert!(route("/js/app.js") == Route::StaticJs(String::from("app.js")));
}

#[test]
fn js_subpath_keeps_everything_after_first_slash() {
    assert!(route("/js/sub/dir.js") == Route::StaticJs(String::from("sub/dir.js")));
}

#[test]
fn api_prefix_routes_to_api() {
    assert!(route("/api/ping") == Route::Api(String::from("ping")));
}

#[test]
fn other_paths_route_to_static_html() {
    assert!(route("/about") == Route::StaticHtml(String::from("/about")));
    assert!(route("/jsx/app") == Route::StaticHtml(String::from("/jsx/app")));
    assert!(route("/js") == Route::StaticHtml(String::from("/js")));
    assert!(route("/apis/x") == Route::StaticHtml(String::from("/apis/x")));
}

#[test]
fn request_path_is_second_token() {
    assert_eq!(parse_request_path("GET /index HTTP/1.1"), Some(String::from("/index")));
    assert_eq!(parse_request_path("GET   /a   HTTP/1.1"), Some(String::from("/a")));
}

#[test]
fn short_request_lines_are_malformed() {
    assert_eq!(parse_request_path("GET"), None);
    assert_eq!(parse_request_path(""), None);
    assert_eq!(parse_request_path("   "), None);
}

#[test]
fn request_line_routes_through_both_steps() {
    assert!(route_request_line("GET / HTTP/1.1") == Some(Route::StaticHtml(String::from("/index"))));
    assert!(route_request_line("GET /api/ping HTTP/1.1") == Some(Route::Api(String::from("ping"))));
    assert!(route_request_line("GET") == None);
}
