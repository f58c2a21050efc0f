//! The HTML composer: wraps a page body fragment in a fixed document shell,
//! optionally injecting a script tag ahead of the fragment.
//!
//! Nothing is escaped: fragments and script paths are inserted verbatim,
//! which is an injection risk the caller accepts.

use vstd::prelude::*;

verus! {

/// The script element injected into the document body: empty when no script
/// path is given, otherwise a single `<script>` tag referencing the path.
pub open spec fn spec_script_elem(js_path: Option<Seq<char>>) -> Seq<char> {
    match js_path {
        Some(p) => "<script src=\""@ + p + "\"></script>"@,
        None => Seq::<char>::empty(),
    }
}

/// The full document: a fixed shell with the script element and then the
/// body fragment injected into the body region, in that order.
pub open spec fn spec_html_document(body: Seq<char>, js_path: Option<Seq<char>>) -> Seq<char> {
    "<!DOCTYPE html>\n    <html lang=\"en\">\n        <head>\n            <meta charset=\"utf-8\">\n            <title>Hello!</title>\n        </head>\n        <body>\n        "@
        + spec_script_elem(js_path) + "\n        "@ + body
        + "\n        </body>\n    </html>\n    "@
}

/// Builds the HTML document around `body_content`, with a script tag for
/// `js_path` when one is supplied. The script tag precedes the fragment.
pub fn create_html_content(body_content: &str, js_path: Option<&str>) -> (r: String)
    ensures
        r@ == spec_html_document(body_content@, js_path.deep_view()),
{
    let mut s = String::from_str(
        "<!DOCTYPE html>\n    <html lang=\"en\">\n        <head>\n            <meta charset=\"utf-8\">\n            <title>Hello!</title>\n        </head>\n        <body>\n        ",
    );
    match js_path {
        Some(path) => {
            s.append("<script src=\"");
            s.append(path);
            s.append("\"></script>");
        },
        None => {},
    }
    s.append("\n        ");
    s.append(body_content);
    s.append("\n        </body>\n    </html>\n    ");
    proof {
        assert(s@ =~= spec_html_document(body_content@, js_path.deep_view()));
    }
    s
}

} // verus!
