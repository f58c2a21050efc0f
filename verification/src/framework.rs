//! The framework: a table of API handlers keyed by path, and the responders
//! for the three handler families. The table is filled at startup and read
//! on every request; keys are unique and insertion order carries no meaning.
//!
//! The content store (a filesystem in a typical deployment) stays outside:
//! the responders take the looked-up content as a value, so the policy on a
//! miss — fall back to the 404 page for HTML, an empty body for JavaScript —
//! is decided and verified here.

use vstd::prelude::*;
use crate::html::{create_html_content, spec_html_document};
use crate::http::{build_response, spec_response};
use crate::text::str_eq;

verus! {

/// One registered API handler: a path-to-body function supplied by the
/// application. `response_spec` names the body the handler stands for; the
/// framework's contracts speak of it, so a handler's author states what the
/// handler returns and `handle` is held to it.
pub trait ApiHandler {
    /// The body this handler returns for a path.
    spec fn response_spec(&self, path: Seq<char>) -> Seq<char>;

    /// Produces the response body for `path`.
    fn handle(&self, path: &str) -> (r: String)
        ensures
            r@ == self.response_spec(path@),
    ;
}

/// A handler that answers every path with one fixed body.
pub struct FixedResponse {
    /// The body returned for every path.
    pub body: String,
}

impl ApiHandler for FixedResponse {
    open spec fn response_spec(&self, path: Seq<char>) -> Seq<char> {
        self.body@
    }

    fn handle(&self, path: &str) -> (r: String) {
        self.body.clone()
    }
}

/// The table of entries as a map from key to handler; a later entry for the
/// same key would win, though the table never holds two.
spec fn map_of<H>(entries: Seq<(String, H)>) -> Map<Seq<char>, H>
    decreases entries.len(),
{
    if entries.len() == 0 {
        Map::<Seq<char>, H>::empty()
    } else {
        map_of(entries.drop_last()).insert(entries.last().0@, entries.last().1)
    }
}

/// No two entries share a key.
spec fn keys_unique<H>(entries: Seq<(String, H)>) -> bool {
    forall|i: int, j: int|
        0 <= i < j < entries.len() ==> (#[trigger] entries[i]).0@ != (#[trigger] entries[j]).0@
}

/// An entry's handler is what the map holds under its key.
proof fn lemma_map_of_entry<H>(entries: Seq<(String, H)>, i: int)
    requires
        keys_unique(entries),
        0 <= i < entries.len(),
    ensures
        map_of(entries).contains_key(entries[i].0@),
        map_of(entries)[entries[i].0@] == entries[i].1,
    decreases entries.len(),
{
    if i < entries.len() - 1 {
        let d = entries.drop_last();
        assert(forall|j: int| 0 <= j < d.len() ==> d[j] == entries[j]);
        lemma_map_of_entry(d, i);
        assert(entries.last().0@ != entries[i].0@);
    }
}

/// A key no entry carries is not in the map.
proof fn lemma_map_of_no_entry<H>(entries: Seq<(String, H)>, k: Seq<char>)
    requires
        forall|i: int| 0 <= i < entries.len() ==> (#[trigger] entries[i]).0@ != k,
    ensures
        !map_of(entries).contains_key(k),
    decreases entries.len(),
{
    if entries.len() > 0 {
        let d = entries.drop_last();
        assert(forall|j: int| 0 <= j < d.len() ==> d[j] == entries[j]);
        lemma_map_of_no_entry(d, k);
    }
}

/// Replacing the handler of the entry that carries `key` updates the map at
/// `key` and nothing else.
proof fn lemma_map_of_update<H>(entries: Seq<(String, H)>, i: int, e: (String, H))
    requires
        keys_unique(entries),
        0 <= i < entries.len(),
        entries[i].0@ == e.0@,
    ensures
        map_of(entries.update(i, e)) == map_of(entries).insert(e.0@, e.1),
    decreases entries.len(),
{
    let u = entries.update(i, e);
    if i == entries.len() - 1 {
        assert(u.drop_last() =~= entries.drop_last());
        assert(u.last() == e);
        assert(map_of(entries.drop_last()).insert(entries.last().0@, entries.last().1).insert(
            e.0@,
            e.1,
        ) =~= map_of(entries.drop_last()).insert(e.0@, e.1));
    } else {
        let d = entries.drop_last();
        assert(forall|j: int| 0 <= j < d.len() ==> d[j] == entries[j]);
        lemma_map_of_update(d, i, e);
        assert(u.drop_last() =~= d.update(i, e));
        assert(u.last() == entries.last());
        assert(entries.last().0@ != e.0@);
        assert(map_of(d).insert(e.0@, e.1).insert(entries.last().0@, entries.last().1) =~= map_of(
            d,
        ).insert(entries.last().0@, entries.last().1).insert(e.0@, e.1));
    }
}

/// The script reference a page carries: `js<path>.js` for the page at
/// `<path>`, whether or not such an asset exists.
pub open spec fn spec_js_ref(base_path: Seq<char>) -> Seq<char> {
    "js"@ + base_path + ".js"@
}

/// The response for a static HTML page at `base_path` whose body fragment is
/// `body`: the fragment wrapped in the document shell with the page's script
/// reference, under status 200 and `text/html`.
pub open spec fn spec_html_response(base_path: Seq<char>, body: Seq<char>) -> Seq<char> {
    spec_response(200, "text/html"@, spec_html_document(body, Some(spec_js_ref(base_path))))
}

/// The response for a static JavaScript asset with content `body`: status
/// 200 and `application/javascript`, the content passed through untouched.
pub open spec fn spec_js_response(body: Seq<char>) -> Seq<char> {
    spec_response(200, "application/javascript"@, body)
}

/// The content-store key of the HTML page at `base_path`: `pages<path>.html`.
pub fn html_page_key(base_path: &str) -> (r: String)
    ensures
        r@ == "pages"@ + base_path@ + ".html"@,
{
    let mut r = String::from_str("pages");
    r.append(base_path);
    r.append(".html");
    r
}

/// The content-store key of the JavaScript asset at `base_path`:
/// `js/pages/<path>`.
pub fn js_asset_key(base_path: &str) -> (r: String)
    ensures
        r@ == "js/pages/"@ + base_path@,
{
    let mut r = String::from_str("js/pages/");
    r.append(base_path);
    r
}

/// The framework: the table of API handlers, immutable once the server
/// starts taking connections.
pub struct Framework<H> {
    api_handlers: Vec<(String, H)>,
}

impl<H: ApiHandler> Framework<H> {
    /// The registered handlers, as a map from API path to handler.
    pub closed spec fn handlers(&self) -> Map<Seq<char>, H> {
        map_of(self.api_handlers@)
    }

    /// The table holds at most one entry per key.
    pub closed spec fn wf(&self) -> bool {
        keys_unique(self.api_handlers@)
    }

    /// A framework with no registered handlers.
    pub fn new() -> (r: Self)
        ensures
            r.wf(),
            r.handlers() == Map::<Seq<char>, H>::empty(),
    {
        Framework { api_handlers: Vec::new() }
    }

    /// Registers `handler` under `path`, replacing any handler the path
    /// already had. Registration happens at startup only; the table is
    /// shared read-only once connections are served.
    pub fn register(&mut self, path: String, handler: H)
        requires
            old(self).wf(),
        ensures
            final(self).wf(),
            final(self).handlers() == old(self).handlers().insert(path@, handler),
    {
        let ghost entries = self.api_handlers@;
        let n = self.api_handlers.len();
        let mut i: usize = 0;
        while i < n
            invariant
                entries == self.api_handlers@,
                entries == old(self).api_handlers@,
                keys_unique(entries),
                0 <= i <= n,
                n == entries.len(),
                forall|j: int| 0 <= j < i ==> (#[trigger] entries[j]).0@ != path@,
            decreases n - i,
        {
            if str_eq(self.api_handlers[i].0.as_str(), path.as_str()) {
                proof {
                    lemma_map_of_update(entries, i as int, (path, handler));
                }
                self.api_handlers[i] = (path, handler);
                proof {
                    let u = self.api_handlers@;
                    assert(forall|j: int|
                        0 <= j < u.len() && j != i ==> #[trigger] u[j] == entries[j]);
                    assert(u[i as int].0@ == entries[i as int].0@);
                    assert(forall|j: int| 0 <= j < u.len() ==> (#[trigger] u[j]).0@ == entries[j].0@);
                    assert(keys_unique(u));
                    assert(u =~= entries.update(i as int, (path, handler)));
                    assert(map_of(u) == map_of(entries).insert(path@, handler));
                }
                return ;
            }
            i = i + 1;
        }
        proof {
            lemma_map_of_no_entry(entries, path@);
        }
        self.api_handlers.push((path, handler));
        proof {
            assert(self.api_handlers@.drop_last() =~= entries);
        }
    }

    /// Serves one static HTML request. `page` is the content the store holds
    /// under the page's own key and `fallback` the content it holds under
    /// the 404 page's key; a missing page falls back to the 404 content,
    /// and either way the status stays 200. Only when both lookups missed is
    /// there nothing to serve, which the caller treats as fatal.
    pub fn create_html_response(&self, base_path: &str, page: Option<String>, fallback: Option<
        String,
    >) -> (r: Option<String>)
        ensures
            (page matches Some(b) ==> r matches Some(s) && s@ == spec_html_response(
                base_path@,
                b@,
            )),
            page is None ==> (fallback matches Some(b) ==> r matches Some(s) && s@
                == spec_html_response(base_path@, b@)),
            page is None && fallback is None ==> r is None,
    {
        let body: String = match page {
            Some(b) => b,
            None => match fallback {
                Some(b) => b,
                None => { return None; },
            },
        };
        let mut js_ref = String::from_str("js");
        js_ref.append(base_path);
        js_ref.append(".js");
        proof {
            assert(js_ref@ =~= spec_js_ref(base_path@));
        }
        let content = create_html_content(body.as_str(), Some(js_ref.as_str()));
        let response = build_response(200, "text/html", content.as_str());
        Some(response)
    }

    /// Serves one static JavaScript request. `content` is what the store
    /// holds under the asset's key; a miss is served as an empty body, and
    /// either way the status stays 200.
    pub fn create_js_response(&self, content: Option<String>) -> (r: String)
        ensures
            (content matches Some(b) ==> r@ == spec_js_response(b@)),
            content is None ==> r@ == spec_js_response(Seq::<char>::empty()),
    {
        let body: String = match content {
            Some(b) => b,
            None => String::new(),
        };
        build_response(200, "application/javascript", body.as_str())
    }

    /// Serves one API request: the handler registered under `base_path`
    /// produces the whole response, and an unregistered path yields the
    /// empty string — no status line and no headers, exactly as the server
    /// answers such a miss on the wire.
    pub fn create_api_response(&self, base_path: &str) -> (r: String)
        requires
            self.wf(),
        ensures
            !self.handlers().contains_key(base_path@) ==> r@ == Seq::<char>::empty(),
            (self.handlers().contains_key(base_path@) ==> r@ == self.handlers()[base_path@]
                .response_spec(base_path@)),
    {
        let ghost entries = self.api_handlers@;
        let n = self.api_handlers.len();
        let mut i: usize = 0;
        while i < n
            invariant
                entries == self.api_handlers@,
                keys_unique(entries),
                0 <= i <= n,
                n == entries.len(),
                forall|j: int| 0 <= j < i ==> (#[trigger] entries[j]).0@ != base_path@,
            decreases n - i,
        {
            if str_eq(self.api_handlers[i].0.as_str(), base_path) {
                proof {
                    lemma_map_of_entry(entries, i as int);
                }
                return self.api_handlers[i].1.handle(base_path);
            }
            i = i + 1;
        }
        proof {
            lemma_map_of_no_entry(entries, base_path@);
        }
        String::new()
    }
}

} // verus!
