//! A small verified web framework core.
//!
//! The library covers the policy of a minimal HTTP server: classifying a
//! request path into one of three handler families (static HTML page, static
//! JavaScript asset, registered API handler), composing an HTML document
//! around a page fragment, and building the literal HTTP response bytes with
//! a `Content-Length` header that matches the body. The surrounding
//! program supplies the sockets and the content store and calls into here for
//! every decision.

pub mod decimal;
pub mod framework;
pub mod html;
pub mod http;
pub mod request;
pub mod routing;
mod text;

pub use framework::ApiHandler;
pub use framework::FixedResponse;
pub use framework::Framework;
pub use html::create_html_content;
pub use http::create_http_header;
pub use routing::route;
pub use routing::Route;
