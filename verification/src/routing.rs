//! The router: extracts the path from a request line and classifies it into
//! one of three handler families. A request for the bare root is first
//! rewritten to the index page. The path is then split, after its leading
//! slash, on the first remaining slash; a `js` prefix selects the static
//! JavaScript family, an `api` prefix the API dispatch family, and anything
//! else the static HTML family, which keeps the whole path.

use vstd::prelude::*;
use crate::text::str_eq;

verus! {

/// The classification of one request path.
pub enum Route {
    /// A static JavaScript asset; carries the path after the `js/` prefix.
    StaticJs(String),
    /// An API call; carries the path after the `api/` prefix.
    Api(String),
    /// A static HTML page; carries the whole (rewritten) request path.
    StaticHtml(String),
}

/// The spec-level classification, over character sequences.
pub enum RouteDecision {
    /// A static JavaScript asset.
    StaticJs(Seq<char>),
    /// An API call.
    Api(Seq<char>),
    /// A static HTML page.
    StaticHtml(Seq<char>),
}

impl View for Route {
    type V = RouteDecision;

    open spec fn view(&self) -> RouteDecision {
        match self {
            Route::StaticJs(p) => RouteDecision::StaticJs(p@),
            Route::Api(p) => RouteDecision::Api(p@),
            Route::StaticHtml(p) => RouteDecision::StaticHtml(p@),
        }
    }
}

impl DeepView for Route {
    type V = RouteDecision;

    open spec fn deep_view(&self) -> RouteDecision {
        self.view()
    }
}

impl PartialEq for Route {
    fn eq(&self, other: &Route) -> (r: bool) {
        match (self, other) {
            (Route::StaticJs(a), Route::StaticJs(b)) => a.eq(b),
            (Route::Api(a), Route::Api(b)) => a.eq(b),
            (Route::StaticHtml(a), Route::StaticHtml(b)) => a.eq(b),
            _ => false,
        }
    }
}

impl vstd::std_specs::cmp::PartialEqSpecImpl for Route {
    open spec fn obeys_eq_spec() -> bool {
        true
    }

    open spec fn eq_spec(&self, other: &Route) -> bool {
        match (self, other) {
            (Route::StaticJs(a), Route::StaticJs(b)) => a@ == b@,
            (Route::Api(a), Route::Api(b)) => a@ == b@,
            (Route::StaticHtml(a), Route::StaticHtml(b)) => a@ == b@,
            _ => false,
        }
    }
}

/// The root path stands for the index page.
pub open spec fn spec_rewrite_root(path: Seq<char>) -> Seq<char> {
    if path == seq!['/'] {
        seq!['/', 'i', 'n', 'd', 'e', 'x']
    } else {
        path
    }
}

/// The index of the first slash in `s`, if any.
pub open spec fn spec_first_slash(s: Seq<char>) -> Option<int>
    decreases s.len(),
{
    if s.len() == 0 {
        None
    } else if s[0] == '/' {
        Some(0)
    } else {
        match spec_first_slash(s.drop_first()) {
            Some(j) => Some(j + 1),
            None => None,
        }
    }
}

/// Where the first slash sits, nothing before it is a slash.
proof fn lemma_first_slash_sound(s: Seq<char>)
    ensures
        spec_first_slash(s) is None ==> (forall|j: int| 0 <= j < s.len() ==> s[j] != '/'),
        (spec_first_slash(s) matches Some(i) ==> 0 <= i < s.len() && s[i] == '/' && (forall|j: int|
            0 <= j < i ==> s[j] != '/')),
    decreases s.len(),
{
    if s.len() > 0 && s[0] != '/' {
        let t = s.drop_first();
        lemma_first_slash_sound(t);
        assert(forall|j: int| 0 <= j < t.len() ==> t[j] == s[j + 1]);
        if spec_first_slash(t) is None {
            assert forall|j: int| 0 <= j < s.len() implies s[j] != '/' by {
                if j > 0 {
                    assert(t[j - 1] == s[j]);
                }
            }
        } else {
            let i = spec_first_slash(t)->Some_0;
            assert(spec_first_slash(s) == Some(i + 1));
            assert(s[i + 1] == t[i]);
            assert forall|j: int| 0 <= j < i + 1 implies s[j] != '/' by {
                if j > 0 {
                    assert(t[j - 1] == s[j]);
                }
            }
        }
    }
}

/// A slash with no slash before it is the first one.
proof fn lemma_first_slash_at(s: Seq<char>, i: int)
    requires
        0 <= i < s.len(),
        s[i] == '/',
        forall|j: int| 0 <= j < i ==> s[j] != '/',
    ensures
        spec_first_slash(s) == Some(i),
    decreases i,
{
    if i > 0 {
        lemma_first_slash_at(s.drop_first(), i - 1);
    }
}

/// No slash at all means no first one.
proof fn lemma_first_slash_none(s: Seq<char>)
    requires
        forall|j: int| 0 <= j < s.len() ==> s[j] != '/',
    ensures
        spec_first_slash(s) is None,
    decreases s.len(),
{
    if s.len() > 0 {
        lemma_first_slash_none(s.drop_first());
    }
}

/// The route a path takes: rewrite the bare root to the index page, strip
/// the leading slash, split on the first remaining slash, and classify by
/// the prefix. With no such slash, or with a prefix other than `js` and
/// `api`, the whole rewritten path names a static HTML page.
pub open spec fn spec_route(path: Seq<char>) -> RouteDecision {
    let p = spec_rewrite_root(path);
    let tail = p.drop_first();
    match spec_first_slash(tail) {
        None => RouteDecision::StaticHtml(p),
        Some(i) => {
            let prefix = tail.take(i);
            let rest = tail.skip(i + 1);
            if prefix == seq!['j', 's'] {
                RouteDecision::StaticJs(rest)
            } else if prefix == seq!['a', 'p', 'i'] {
                RouteDecision::Api(rest)
            } else {
                RouteDecision::StaticHtml(p)
            }
        },
    }
}

/// Every path that does not begin with `/js/` or `/api/` is classified as a
/// static HTML page under its own path, after the root rewrite.
pub proof fn lemma_route_default(path: Seq<char>)
    requires
        path.len() >= 1,
        path[0] == '/',
        !seq!['/', 'j', 's', '/'].is_prefix_of(path),
        !seq!['/', 'a', 'p', 'i', '/'].is_prefix_of(path),
    ensures
        spec_route(path) == RouteDecision::StaticHtml(spec_rewrite_root(path)),
{
    let p = spec_rewrite_root(path);
    let tail = p.drop_first();
    assert(forall|j: int| 0 <= j < tail.len() ==> tail[j] == p[j + 1]);
    lemma_first_slash_sound(tail);
    if spec_first_slash(tail) is Some {
        let i = spec_first_slash(tail)->Some_0;
        let prefix = tail.take(i);
        assert(prefix.len() == i);
        assert(forall|j: int| 0 <= j < i ==> prefix[j] == tail[j]);
        if prefix == seq!['j', 's'] {
            assert(i == 2);
            assert(tail[0] == 'j' && tail[1] == 's' && tail[2] == '/');
            if path == seq!['/'] {
                assert(tail =~= seq!['i', 'n', 'd', 'e', 'x']);
                assert(false);
            }
            assert(p == path);
            assert(path.len() >= 4);
            assert(path.subrange(0, 4) =~= seq!['/', 'j', 's', '/']);
            assert(seq!['/', 'j', 's', '/'].is_prefix_of(path));
            assert(false);
        } else if prefix == seq!['a', 'p', 'i'] {
            assert(i == 3);
            assert(tail[0] == 'a' && tail[1] == 'p' && tail[2] == 'i' && tail[3] == '/');
            if path == seq!['/'] {
                assert(tail =~= seq!['i', 'n', 'd', 'e', 'x']);
                assert(false);
            }
            assert(p == path);
            assert(path.len() >= 5);
            assert(path.subrange(0, 5) =~= seq!['/', 'a', 'p', 'i', '/']);
            assert(seq!['/', 'a', 'p', 'i', '/'].is_prefix_of(path));
            assert(false);
        }
    }
}

/// Classifies one request path.
pub fn route(path: &str) -> (r: Route)
    requires
        path@.len() >= 1,
    ensures
        r@ == spec_route(path@),
{
    proof {
        reveal_strlit("/");
        reveal_strlit("/index");
        assert("/"@ =~= seq!['/']);
        assert("/index"@ =~= seq!['/', 'i', 'n', 'd', 'e', 'x']);
    }
    let p: &str = if str_eq(path, "/") {
        "/index"
    } else {
        path
    };
    proof {
        assert(p@ == spec_rewrite_root(path@));
    }
    let ghost tail = p@.drop_first();
    let n = p.unicode_len();
    let mut i: usize = 1;
    while i < n && p.get_char(i) != '/'
        invariant
            1 <= i <= n,
            n == p@.len(),
            forall|j: int| 1 <= j < i ==> p@[j] != '/',
        decreases n - i,
    {
        i = i + 1;
    }
    if i < n {
        proof {
            assert(forall|j: int| 0 <= j < i - 1 ==> tail[j] == p@[j + 1] && tail[j] != '/');
            lemma_first_slash_at(tail, i - 1);
        }
        let prefix = p.substring_char(1, i);
        let rest = p.substring_char(i + 1, n);
        proof {
            assert(prefix@ =~= tail.take(i - 1));
            assert(rest@ =~= tail.skip(i - 1 + 1));
            reveal_strlit("js");
            reveal_strlit("api");
            assert("js"@ =~= seq!['j', 's']);
            assert("api"@ =~= seq!['a', 'p', 'i']);
        }
        if str_eq(prefix, "js") {
            Route::StaticJs(String::from_str(rest))
        } else if str_eq(prefix, "api") {
            Route::Api(String::from_str(rest))
        } else {
            Route::StaticHtml(String::from_str(p))
        }
    } else {
        proof {
            assert(forall|j: int| 0 <= j < tail.len() ==> tail[j] == p@[j + 1] && tail[j] != '/');
            lemma_first_slash_none(tail);
        }
        Route::StaticHtml(String::from_str(p))
    }
}

} // verus!
